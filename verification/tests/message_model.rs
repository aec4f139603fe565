use mailclient::cache::EmailCache;
use mailclient::imap::EmailHeader;
use mailclient::autoconfig::{autoconfig_urls, fallback_config, jmap_probe_urls, parse_autoconfig_xml};
use mailclient::imap::{decode_attachment_bytes, flag_summary, format_address, Attachment, Email};
use mailclient::jmap::{flags_from_keywords, keywords_from_flags, page_slice, sieve_set_call, sieve_upload_url};
use mailclient::mime::{extract_attachments, extract_bodies, extract_display_bodies, header_param, MimePart};
use mailclient::imap::sent_folder_candidates;
use mailclient::jmap::{address_domain, build_rfc5322_message, JmapOutgoingEmail};
use mailclient::sieve::putscript_command;

fn leaf(mime: &str, body: &str) -> MimePart {
    MimePart {
        mime_type: mime.to_string(),
        content_disposition: None,
        content_type_header: None,
        transfer_encoding: "7bit".to_string(),
        body_text: body.to_string(),
        raw_size: body.len(),
        children: Vec::new(),
    }
}

#[test]
fn mime_first_bodies_depth_first() {
    let tree = MimePart {
        mime_type: "multipart/alternative".to_string(),
        content_disposition: None,
        content_type_header: None,
        transfer_encoding: "7bit".to_string(),
        body_text: String::new(),
        raw_size: 0,
        children: vec![
            leaf("text/plain", "plain body"),
            leaf("text/html", "<p>html body</p>"),
            leaf("text/plain", "later plain"),
        ],
    };
    let (text, html) = extract_bodies(&tree);
    assert_eq!(text, "plain body");
    assert_eq!(html, "<p>html body</p>");
}

#[test]
fn mime_attachments_get_dotted_paths() {
    let mut pdf = leaf("application/pdf", "%PDF");
    pdf.content_disposition = Some("attachment; filename=\"report.pdf\"".to_string());
    let inner = MimePart {
        mime_type: "multipart/mixed".to_string(),
        content_disposition: None,
        content_type_header: None,
        transfer_encoding: "7bit".to_string(),
        body_text: String::new(),
        raw_size: 0,
        children: vec![leaf("text/plain", "hi"), pdf],
    };
    let mut img = leaf("image/png", "PNG");
    img.content_disposition = Some("attachment".to_string());
    img.content_type_header = Some("image/png; name=pic.png".to_string());
    let root = MimePart {
        mime_type: "multipart/mixed".to_string(),
        content_disposition: None,
        content_type_header: None,
        transfer_encoding: "base64".to_string(),
        body_text: String::new(),
        raw_size: 0,
        children: vec![inner, img],
    };
    let atts = extract_attachments(&root);
    assert_eq!(atts.len(), 2);
    assert_eq!(atts[0].filename, "report.pdf");
    assert_eq!(atts[0].part_id, "1.2");
    assert_eq!(atts[1].filename, "pic.png");
    assert_eq!(atts[1].part_id, "2");
}

#[test]
fn sanitizer_strips_scripts() {
    let tree = leaf("text/html", "<p>ok</p><script>alert(1)</script>");
    let (_, clean) = extract_display_bodies(&tree);
    assert!(clean.contains("<p>ok</p>"));
    assert!(!clean.contains("script"));
}

#[test]
fn header_param_extraction() {
    assert_eq!(
        header_param("attachment; filename=\"a b.txt\"", "filename=", true),
        Some("a b.txt".to_string())
    );
    assert_eq!(
        header_param("image/png; name=pic.png", "name=", false),
        Some("pic.png".to_string())
    );
    assert_eq!(header_param("inline", "filename=", true), None);
}

#[test]
fn autoconfig_xml_parses_servers() {
    let xml = "<clientConfig>\n<emailProvider>\n<displayName>Example Mail</displayName>\n\
<incomingServer type=\"imap\">\n<hostname>imap.%EMAILDOMAIN%</hostname>\n<port>993</port>\n\
<socketType>SSL</socketType>\n</incomingServer>\n\
<outgoingServer type=\"smtp\">\n<hostname>smtp.example.org</hostname>\n<port>587</port>\n\
<socketType>STARTTLS</socketType>\n</outgoingServer>\n</emailProvider>\n</clientConfig>";
    let cfg = parse_autoconfig_xml(xml, "user@example.org").unwrap();
    assert_eq!(cfg.imap_host.as_deref(), Some("imap.example.org"));
    assert_eq!(cfg.imap_port, Some(993));
    assert_eq!(cfg.imap_socket_type.as_deref(), Some("SSL"));
    assert_eq!(cfg.smtp_host.as_deref(), Some("smtp.example.org"));
    assert_eq!(cfg.smtp_port, Some(587));
    assert_eq!(cfg.smtp_socket_type.as_deref(), Some("STARTTLS"));
    assert_eq!(cfg.display_name.as_deref(), Some("Example Mail"));
    assert!(parse_autoconfig_xml("<clientConfig/>", "a@b.c").is_none());
}

#[test]
fn autoconfig_probe_urls_and_fallback() {
    let urls = autoconfig_urls("u@d.tld", "d.tld");
    assert_eq!(urls.len(), 4);
    assert_eq!(
        urls[0],
        "https://autoconfig.d.tld/mail/config-v1.1.xml?emailaddress=u@d.tld"
    );
    assert_eq!(urls[3], "https://autoconfig.thunderbird.net/v1.1/d.tld");
    let probes = jmap_probe_urls("d.tld");
    assert_eq!(probes[2], "https://jmap.d.tld/.well-known/jmap");
    let guess = fallback_config("d.tld");
    assert_eq!(guess.imap_host.as_deref(), Some("imap.d.tld"));
    assert_eq!(guess.imap_port, Some(993));
    assert_eq!(guess.smtp_port, Some(587));
}

#[test]
fn jmap_keyword_flags_both_ways() {
    let keywords = vec!["$seen".to_string(), "$draft".to_string()];
    let (seen, flagged, answered, draft) = flags_from_keywords(&keywords);
    assert!(seen && draft);
    assert!(!flagged && !answered);
    assert_eq!(
        keywords_from_flags(true, false, false, true),
        vec!["$seen".to_string(), "$draft".to_string()]
    );
    assert!(keywords_from_flags(false, false, false, false).is_empty());
}

#[test]
fn jmap_paging_and_sieve_calls() {
    let ids: Vec<String> = (0..10).map(|i| format!("id{}", i)).collect();
    assert_eq!(page_slice(&ids, 2, 3), vec!["id2", "id3", "id4"]);
    assert_eq!(page_slice(&ids, 8, 5), vec!["id8", "id9"]);
    assert!(page_slice(&ids, 20, 5).is_empty());
    assert_eq!(
        sieve_upload_url("https://host/jmap", "acc1"),
        "https://host/jmap/upload/acc1"
    );
    let call = sieve_set_call(None, true);
    assert!(call.is_create && call.activate_written);
    let call2 = sieve_set_call(Some("s1".to_string()), false);
    assert!(!call2.is_create);
    assert_eq!(call2.existing_id.as_deref(), Some("s1"));
}

#[test]
fn imap_flags_and_addresses() {
    let flags = vec!["\\Seen".to_string(), "\\Answered".to_string(), "custom".to_string()];
    let (seen, flagged, answered, draft) = flag_summary(&flags);
    assert!(seen && answered);
    assert!(!flagged && !draft);
    assert_eq!(format_address("", "max", "example.org"), "max@example.org");
    assert_eq!(
        format_address("Max", "max", "example.org"),
        "Max <max@example.org>"
    );
}

#[test]
fn attachment_decode_heuristic() {
    // base64-shaped payload decodes
    let body = b"SGVsbG8=\r\n".to_vec();
    assert_eq!(decode_attachment_bytes(&body), b"Hello".to_vec());
    // binary payload passes through
    let binary = vec![0u8, 159, 146, 150];
    assert_eq!(decode_attachment_bytes(&binary), binary);
    // base64-shaped but invalid stays verbatim
    let bad = b"AB".to_vec();
    assert_eq!(decode_attachment_bytes(&bad), bad);
}

#[test]
fn store_and_read_full_email() {
    let mut cache = EmailCache::new();
    let email = Email {
        uid: 11,
        subject: "With attachment".to_string(),
        from: "a@x".to_string(),
        to: "b@x".to_string(),
        cc: "c@x".to_string(),
        date: "d".to_string(),
        body_text: "body".to_string(),
        body_html: "<b>body</b>".to_string(),
        attachments: vec![Attachment {
            filename: "f.bin".to_string(),
            mime_type: "application/octet-stream".to_string(),
            size: 4,
            part_id: "2".to_string(),
            encoding: "base64".to_string(),
        }],
        is_read: false,
        is_flagged: false,
        is_answered: false,
        is_draft: false,
        flags: Vec::new(),
    };
    cache.store_email("INBOX", &email, 1000, 2000);
    let read = cache.get_email("INBOX", 11).unwrap();
    assert_eq!(read.subject, "With attachment");
    assert_eq!(read.cc, "c@x");
    assert_eq!(read.body_text, "body");
    assert_eq!(read.attachments.len(), 1);
    assert_eq!(read.attachments[0].filename, "f.bin");
    assert!(cache.get_email("INBOX", 99).is_none());
}

#[test]
fn cache_queries_sort_and_filter() {
    let mut cache = EmailCache::new();
    for (uid, ts, subject) in [(1u32, 100i64, "old news"), (2, 300, "fresh news"), (3, 200, "middle")] {
        cache.store_header(
            "INBOX",
            &EmailHeader {
                uid,
                subject: subject.to_string(),
                from: "sender@x".to_string(),
                to: "me@x".to_string(),
                date: "d".to_string(),
                is_read: false,
                is_flagged: false,
                is_answered: false,
                is_draft: false,
                flags: Vec::new(),
                has_attachments: false,
            },
            ts,
            1000,
        );
    }
    let headers = cache.get_headers("INBOX", 0, 10);
    assert_eq!(headers.len(), 3);
    assert_eq!(headers[0].uid, 2);
    assert_eq!(headers[1].uid, 3);
    assert_eq!(headers[2].uid, 1);
    let page = cache.get_headers("INBOX", 1, 1);
    assert_eq!(page.len(), 1);
    assert_eq!(page[0].uid, 3);
    let hits = cache.search("NEWS");
    assert_eq!(hits.len(), 2);
    assert_eq!(hits[0].uid, 2);
    let stats = cache.get_stats();
    assert_eq!(stats.email_count, 3);
    assert_eq!(stats.attachment_count, 0);
    assert_eq!(stats.oldest_email.as_deref(), Some("d"));
}

#[test]
fn category_crud_and_uncategorized() {
    let mut cache = EmailCache::new();
    for uid in [1u32, 2] {
        cache.store_header(
            "INBOX",
            &EmailHeader {
                uid,
                subject: "s".to_string(),
                from: "f".to_string(),
                to: "t".to_string(),
                date: "d".to_string(),
                is_read: false,
                is_flagged: false,
                is_answered: false,
                is_draft: false,
                flags: Vec::new(),
                has_attachments: false,
            },
            uid as i64,
            0,
        );
    }
    assert_eq!(cache.get_uncategorized_count("INBOX"), 2);
    cache
        .set_email_category("INBOX", 1, "work", 90, false, 0)
        .unwrap();
    assert_eq!(cache.get_uncategorized_count("INBOX"), 1);
    assert_eq!(cache.get_uncategorized_emails("INBOX", 10), vec![2]);
    let by_cat = cache.get_emails_by_category("work");
    assert_eq!(by_cat.len(), 1);
    assert_eq!(by_cat[0].uid, 1);
    let counts = cache.get_category_counts("INBOX");
    assert_eq!(counts, vec![("work".to_string(), 1)]);

    assert!(cache.create_category("custom1", "Custom", "#123456", None).is_ok());
    assert!(cache.create_category("custom1", "Again", "#123456", None).is_err());
    let cats = cache.get_categories();
    assert_eq!(cats.len(), 9);
    assert_eq!(cats[8].id, "custom1");
    assert!(cats[8].sort_order > cats[7].sort_order);
    cache.update_category("custom1", "Renamed", "#654321", Some("star"));
    assert_eq!(cache.get_categories()[8].name, "Renamed");
    // system categories resist updates and deletes
    cache.update_category("work", "Nope", "#000000", None);
    assert_eq!(cache.get_categories()[0].name, "Arbeit");
    cache.delete_category("custom1");
    assert_eq!(cache.get_categories().len(), 8);
    cache.delete_category("work");
    assert_eq!(cache.get_categories().len(), 8);
}

#[test]
fn spam_subsystem_flow() {
    let mut cache = EmailCache::new();
    for uid in [5u32, 6] {
        cache.store_header(
            "INBOX",
            &EmailHeader {
                uid,
                subject: "s".to_string(),
                from: "f".to_string(),
                to: "t".to_string(),
                date: "d".to_string(),
                is_read: false,
                is_flagged: false,
                is_answered: false,
                is_draft: false,
                flags: Vec::new(),
                has_attachments: false,
            },
            uid as i64,
            0,
        );
    }
    assert!(!cache.is_spam_scanned("INBOX", 5));
    cache
        .store_spam_result("INBOX", 5, true, 95, "phishing wording", 10)
        .unwrap();
    cache.store_spam_result("INBOX", 6, false, 10, "", 10).unwrap();
    assert!(cache.is_spam_scanned("INBOX", 5));
    assert_eq!(cache.get_spam_count("INBOX"), 1);
    let candidates = cache.get_spam_candidates("INBOX");
    assert_eq!(candidates.len(), 1);
    assert_eq!(candidates[0].0, 5);
    assert_eq!(candidates[0].2, "phishing wording");
    assert!(cache.store_spam_result("INBOX", 99, true, 1, "", 0).is_err());
    // the spam watermark clamps like the sync one
    assert!(cache.get_spam_scan_state("INBOX").is_none());
    cache.set_spam_scan_state("INBOX", 6);
    cache.set_spam_scan_state("INBOX", 4);
    assert_eq!(cache.get_spam_scan_state("INBOX"), Some(6));
    // deleting the message cascades to its verdict
    cache.delete_email("INBOX", 5);
    assert!(!cache.is_spam_scanned("INBOX", 5));
    assert_eq!(cache.get_spam_count("INBOX"), 0);
}

#[test]
fn named_part_without_disposition_is_attachment() {
    let mut inline_img = leaf("image/jpeg", "JJ");
    inline_img.content_type_header = Some("image/jpeg; name=photo.jpg".to_string());
    let root = MimePart {
        mime_type: "multipart/mixed".to_string(),
        content_disposition: None,
        content_type_header: None,
        transfer_encoding: "7bit".to_string(),
        body_text: String::new(),
        raw_size: 0,
        children: vec![leaf("text/plain", "hi"), inline_img],
    };
    let atts = extract_attachments(&root);
    assert_eq!(atts.len(), 1);
    assert_eq!(atts[0].filename, "photo.jpg");
    assert_eq!(atts[0].part_id, "2");
}

#[test]
fn rfc5322_message_with_html_and_cc() {
    let email = JmapOutgoingEmail {
        to: vec!["a@x.org".to_string(), "b@x.org".to_string()],
        cc: Some(vec!["c@x.org".to_string()]),
        bcc: None,
        subject: "Hello".to_string(),
        body_text: "plain".to_string(),
        body_html: Some("<p>hi</p>".to_string()),
        in_reply_to: Some("<prev@x.org>".to_string()),
        references: None,
    };
    let m = build_rfc5322_message(
        &email,
        "Alice",
        "alice@x.org",
        "Mon, 2 Jan 2006 15:04:05 +0000",
        "uuid-1",
        "x.org",
    );
    let mut expected = String::new();
    expected.push_str("From: Alice <alice@x.org>\r\n");
    expected.push_str("To: a@x.org, b@x.org\r\n");
    expected.push_str("Cc: c@x.org\r\n");
    expected.push_str("Subject: Hello\r\n");
    expected.push_str("Date: Mon, 2 Jan 2006 15:04:05 +0000\r\n");
    expected.push_str("Message-ID: <uuid-1@x.org>\r\n");
    expected.push_str("In-Reply-To: <prev@x.org>\r\n");
    expected.push_str("MIME-Version: 1.0\r\n");
    expected.push_str("Content-Type: multipart/alternative; boundary=\"boundary-alternative\"\r\n");
    expected.push_str("\r\n");
    expected.push_str("--boundary-alternative\r\n");
    expected.push_str("Content-Type: text/plain; charset=utf-8\r\n");
    expected.push_str("\r\n");
    expected.push_str("plain");
    expected.push_str("\r\n--boundary-alternative\r\n");
    expected.push_str("Content-Type: text/html; charset=utf-8\r\n");
    expected.push_str("\r\n");
    expected.push_str("<p>hi</p>");
    expected.push_str("\r\n--boundary-alternative--\r\n");
    assert_eq!(m, expected);
}

#[test]
fn rfc5322_message_plain_without_cc() {
    let email = JmapOutgoingEmail {
        to: vec!["a@x.org".to_string()],
        cc: Some(Vec::new()),
        bcc: None,
        subject: "S".to_string(),
        body_text: "body".to_string(),
        body_html: None,
        in_reply_to: None,
        references: Some("<r1@x.org>".to_string()),
    };
    let m = build_rfc5322_message(&email, "A", "a@x.org", "D", "id", "x.org");
    let mut expected = String::new();
    expected.push_str("From: A <a@x.org>\r\n");
    expected.push_str("To: a@x.org\r\n");
    expected.push_str("Subject: S\r\n");
    expected.push_str("Date: D\r\n");
    expected.push_str("Message-ID: <id@x.org>\r\n");
    expected.push_str("References: <r1@x.org>\r\n");
    expected.push_str("Content-Type: text/plain; charset=utf-8\r\n");
    expected.push_str("\r\n");
    expected.push_str("body");
    assert_eq!(m, expected);
    assert_eq!(address_domain("user@sub.example.org"), "sub.example.org");
    assert_eq!(address_domain("nodomain"), "nodomain");
}

#[test]
fn putscript_frames_the_literal() {
    let cmd = putscript_command("VIP", "require [\"fileinto\"];");
    assert_eq!(cmd, "PUTSCRIPT \"VIP\" {21+}\r\nrequire [\"fileinto\"];\r\n");
    // the literal length counts bytes, not characters
    let cmd2 = putscript_command("s", "\u{fc}");
    assert_eq!(cmd2, "PUTSCRIPT \"s\" {2+}\r\n\u{fc}\r\n");
}

#[test]
fn sent_folder_probe_order() {
    let v = sent_folder_candidates();
    let expected = ["Sent", "Gesendet", "INBOX.Sent", "INBOX.Gesendet", "Sent Items", "Sent Messages"];
    assert_eq!(v.len(), expected.len());
    for (got, want) in v.iter().zip(expected.iter()) {
        assert_eq!(got, want);
    }
}

#[test]
fn category_icon_is_stored_and_updated() {
    let mut cache = EmailCache::new();
    cache.create_category("projects", "Projects", "#00f", Some("plane")).unwrap();
    let cats = cache.get_categories();
    let c = cats.iter().find(|c| c.id == "projects").unwrap();
    assert_eq!(c.icon.as_deref(), Some("plane"));
    assert!(cache.create_category("projects", "Projects2", "#0f0", None).is_err());
    cache.update_category("projects", "Club", "#fff", None);
    let cats2 = cache.get_categories();
    let c2 = cats2.iter().find(|c| c.id == "projects").unwrap();
    assert_eq!(c2.name, "Club");
    assert!(c2.icon.is_none());
}
