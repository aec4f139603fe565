use mailclient::caldav::{
    event_to_icalendar, parse_dt_line, parse_icalendar, parse_vtodo, task_to_icalendar,
    CalDavTask, CalendarEvent, EventAttendee,
};
use mailclient::carddav::{
    contact_to_vcard, escape_vcard_value, extract_type_param, extract_vcard_value, parse_vcard,
    Contact, ContactEmail, ContactPhone,
};

fn chars(s: &str) -> Vec<char> {
    s.chars().collect()
}

#[test]
fn dt_line_forms() {
    let (v, date_only) = parse_dt_line(&chars("DTSTART;VALUE=DATE:20260127"));
    assert_eq!(v, "2026-01-27");
    assert!(date_only);
    let (v2, d2) = parse_dt_line(&chars("DTSTART:20260127T090000Z"));
    assert_eq!(v2, "2026-01-27T09:00:00Z");
    assert!(!d2);
    let (v3, d3) = parse_dt_line(&chars("DTSTART;TZID=Europe/Berlin:20260127T090000"));
    assert_eq!(v3, "2026-01-27T09:00:00");
    assert!(!d3);
}

#[test]
fn vevent_parses_fields() {
    let ics = "BEGIN:VCALENDAR\nBEGIN:VEVENT\nUID:ev-1\nSUMMARY:Planung\\, Q2\nDESCRIPTION:Details\nLOCATION:Raum 5\nDTSTART:20260127T090000Z\nDTEND:20260127T100000Z\nATTENDEE;ROLE=REQ-PARTICIPANT;PARTSTAT=ACCEPTED;CN=Anna:mailto:anna@example.com\nEND:VEVENT\nEND:VCALENDAR\n";
    let event = parse_icalendar(ics, "cal1").unwrap();
    assert_eq!(event.id, "ev-1");
    assert_eq!(event.calendar_id, "cal1");
    assert_eq!(event.summary, "Planung, Q2");
    assert_eq!(event.description.as_deref(), Some("Details"));
    assert_eq!(event.location.as_deref(), Some("Raum 5"));
    assert_eq!(event.start, "2026-01-27T09:00:00Z");
    assert_eq!(event.end, "2026-01-27T10:00:00Z");
    assert!(!event.all_day);
    assert_eq!(event.attendees.len(), 1);
    assert_eq!(event.attendees[0].email, "anna@example.com");
    assert_eq!(event.attendees[0].name.as_deref(), Some("Anna"));
    assert_eq!(event.attendees[0].status, "ACCEPTED");
}

#[test]
fn vevent_all_day_and_fallback_end() {
    let ics = "BEGIN:VEVENT\nUID:d1\nSUMMARY:Feiertag\nDTSTART;VALUE=DATE:20260501\nEND:VEVENT\n";
    let event = parse_icalendar(ics, "c").unwrap();
    assert!(event.all_day);
    assert_eq!(event.start, "2026-05-01");
    // a missing DTEND falls back to the start
    assert_eq!(event.end, "2026-05-01");
}

#[test]
fn vevent_without_uid_is_skipped() {
    let ics = "BEGIN:VEVENT\nSUMMARY:No id\nEND:VEVENT\n";
    assert!(parse_icalendar(ics, "c").is_none());
}

#[test]
fn vtodo_parses_fields() {
    let ics = "BEGIN:VTODO\nUID:t1\nSUMMARY:Bericht\nSTATUS:completed\nPRIORITY:2\nPERCENT-COMPLETE:100\nDUE;VALUE=DATE:20260301\nCREATED:20260101T080000Z\nEND:VTODO\n";
    let task = parse_vtodo(ics, "cal").unwrap();
    assert_eq!(task.id, "t1");
    assert_eq!(task.summary, "Bericht");
    assert!(task.completed);
    assert_eq!(task.status.as_deref(), Some("COMPLETED"));
    assert_eq!(task.priority, Some(2));
    assert_eq!(task.percent_complete, Some(100));
    assert_eq!(task.due.as_deref(), Some("2026-03-01"));
    assert_eq!(task.created.as_deref(), Some("2026-01-01T08:00:00Z"));
}

#[test]
fn vtodo_untitled_fallback() {
    let ics = "BEGIN:VTODO\nUID:t2\nEND:VTODO\n";
    let task = parse_vtodo(ics, "cal").unwrap();
    assert_eq!(task.summary, "Untitled Task");
    assert!(!task.completed);
}

#[test]
fn vcard_value_helpers() {
    assert_eq!(escape_vcard_value("a,b;c\\d"), "a\\,b\\;c\\\\d");
    let v = extract_vcard_value(&chars("EMAIL;TYPE=WORK:max@firma.de"));
    let s: String = v.into_iter().collect();
    assert_eq!(s, "max@firma.de");
    assert_eq!(
        extract_type_param(&chars("EMAIL;type=work:x")),
        Some("work".to_string())
    );
    assert_eq!(
        extract_type_param(&chars("TEL;TYPE=\"CELL\":x")),
        Some("mobile".to_string())
    );
    assert_eq!(extract_type_param(&chars("EMAIL:x")), None);
}

#[test]
fn vcard_round_trip() {
    let contact = Contact {
        id: "c-1".to_string(),
        display_name: "Max Mustermann".to_string(),
        first_name: "Max".to_string(),
        last_name: "Mustermann".to_string(),
        emails: vec![ContactEmail {
            email: "max@firma.de".to_string(),
            label: "work".to_string(),
        }],
        phones: vec![ContactPhone {
            number: "+49 30 1234".to_string(),
            label: "mobile".to_string(),
        }],
        organization: Some("Firma GmbH".to_string()),
        photo_url: None,
    };
    let card = contact_to_vcard(&contact);
    assert!(card.starts_with("BEGIN:VCARD\r\nVERSION:3.0\r\n"));
    assert!(card.contains("UID:c-1"));
    assert!(card.contains("FN:Max Mustermann"));
    assert!(card.contains("N:Mustermann;Max;;;"));
    assert!(card.contains("EMAIL;TYPE=WORK:max@firma.de"));
    assert!(card.contains("TEL;TYPE=CELL:+49 30 1234"));
    assert!(card.contains("ORG:Firma GmbH"));
    let parsed = parse_vcard(&card, "fallback").unwrap();
    assert_eq!(parsed.id, "c-1");
    assert_eq!(parsed.display_name, "Max Mustermann");
    assert_eq!(parsed.first_name, "Max");
    assert_eq!(parsed.last_name, "Mustermann");
    assert_eq!(parsed.emails.len(), 1);
    assert_eq!(parsed.emails[0].email, "max@firma.de");
    assert_eq!(parsed.emails[0].label, "work");
    assert_eq!(parsed.phones[0].label, "mobile");
    assert_eq!(parsed.organization.as_deref(), Some("Firma GmbH"));
}

#[test]
fn vcard_fallbacks() {
    // no UID: the caller's fallback id is taken
    let card = "BEGIN:VCARD\nFN:Nur Name\nEMAIL:a@b.c\nEND:VCARD\n";
    let parsed = parse_vcard(card, "generated-id").unwrap();
    assert_eq!(parsed.id, "generated-id");
    // the digest-based fallback id is stable and hex-shaped
    let fid = mailclient::carddav::vcard_fallback_id(card);
    assert_eq!(fid.len(), 32);
    assert_eq!(fid, mailclient::carddav::vcard_fallback_id(card));
    let parsed_fid = parse_vcard(card, &fid).unwrap();
    assert_eq!(parsed_fid.id, fid);
    // no display name: built from the name parts
    let card2 = "BEGIN:VCARD\nUID:u\nN:Nachname;Vorname;;;\nEMAIL:a@b.c\nEND:VCARD\n";
    let parsed2 = parse_vcard(card2, "x").unwrap();
    assert_eq!(parsed2.display_name, "Vorname Nachname");
    // no addresses: skipped
    assert!(parse_vcard("BEGIN:VCARD\nUID:u\nEND:VCARD\n", "x").is_none());
}

#[test]
fn event_emitter_writes_full_body() {
    let event = CalendarEvent {
        id: "ev1".to_string(),
        calendar_id: "cal".to_string(),
        summary: "Team; Sync".to_string(),
        description: Some("Line1\nLine2".to_string()),
        location: None,
        start: "2026-01-27T09:00:00".to_string(),
        end: "2026-01-27T10:00:00Z".to_string(),
        all_day: false,
        recurrence_rule: Some("FREQ=WEEKLY".to_string()),
        color: None,
        organizer: Some(EventAttendee {
            email: "boss@x".to_string(),
            name: Some("Boss".to_string()),
            role: "CHAIR".to_string(),
            status: "ACCEPTED".to_string(),
            rsvp: false,
        }),
        attendees: vec![EventAttendee {
            email: "a@x".to_string(),
            name: None,
            role: "REQ-PARTICIPANT".to_string(),
            status: "NEEDS-ACTION".to_string(),
            rsvp: true,
        }],
    };
    let ics = event_to_icalendar(&event, "20260127T080000Z");
    let mut expected = String::new();
    expected.push_str("BEGIN:VCALENDAR\r\n");
    expected.push_str("VERSION:2.0\r\n");
    expected.push_str("PRODID:-//MailClient//CalDAV Client//EN\r\n");
    expected.push_str("METHOD:REQUEST\r\n");
    expected.push_str("BEGIN:VEVENT\r\n");
    expected.push_str("UID:ev1\r\n");
    expected.push_str("DTSTAMP:20260127T080000Z\r\n");
    expected.push_str("DTSTART:20260127T090000\r\n");
    expected.push_str("DTEND:20260127T100000Z\r\n");
    expected.push_str("SUMMARY:Team\\; Sync\r\n");
    expected.push_str("DESCRIPTION:Line1\\nLine2\r\n");
    expected.push_str("RRULE:FREQ=WEEKLY\r\n");
    expected.push_str("ORGANIZER;CN=Boss:mailto:boss@x\r\n");
    expected.push_str("ATTENDEE;ROLE=REQ-PARTICIPANT;PARTSTAT=NEEDS-ACTION;RSVP=TRUE:mailto:a@x\r\n");
    expected.push_str("END:VEVENT\r\n");
    expected.push_str("END:VCALENDAR\r\n");
    assert_eq!(ics, expected);
    // the emitter writes what the parser reads back
    let parsed = parse_icalendar(&ics, "cal").unwrap();
    assert_eq!(parsed.summary, "Team; Sync");
    assert_eq!(parsed.description.as_deref(), Some("Line1\nLine2"));
}

#[test]
fn event_emitter_all_day_dates() {
    let event = CalendarEvent {
        id: "ev2".to_string(),
        calendar_id: "cal".to_string(),
        summary: "Holiday".to_string(),
        description: None,
        location: None,
        start: "2026-01-27T00:00:00".to_string(),
        end: "2026-01-28T00:00:00".to_string(),
        all_day: true,
        recurrence_rule: None,
        color: None,
        organizer: None,
        attendees: Vec::new(),
    };
    let ics = event_to_icalendar(&event, "20260101T000000Z");
    assert!(ics.contains("DTSTART;VALUE=DATE:20260127\r\n"));
    assert!(ics.contains("DTEND;VALUE=DATE:20260128\r\n"));
}

#[test]
fn task_emitter_writes_full_body() {
    let task = CalDavTask {
        id: "t1".to_string(),
        calendar_id: "cal".to_string(),
        summary: "Buy milk".to_string(),
        description: None,
        completed: false,
        percent_complete: Some(40),
        priority: Some(2),
        due: Some("2026-03-01".to_string()),
        created: None,
        last_modified: None,
        status: None,
    };
    let ics = task_to_icalendar(&task, "20260101T120000Z");
    let mut expected = String::new();
    expected.push_str("BEGIN:VCALENDAR\r\n");
    expected.push_str("VERSION:2.0\r\n");
    expected.push_str("PRODID:-//MailClient//CalDAV Client//EN\r\n");
    expected.push_str("BEGIN:VTODO\r\n");
    expected.push_str("UID:t1\r\n");
    expected.push_str("DTSTAMP:20260101T120000Z\r\n");
    expected.push_str("SUMMARY:Buy milk\r\n");
    expected.push_str("CREATED:20260101T120000Z\r\n");
    expected.push_str("LAST-MODIFIED:20260101T120000Z\r\n");
    expected.push_str("DUE;VALUE=DATE:20260301\r\n");
    expected.push_str("PRIORITY:2\r\n");
    expected.push_str("STATUS:NEEDS-ACTION\r\n");
    expected.push_str("PERCENT-COMPLETE:40\r\n");
    expected.push_str("END:VTODO\r\n");
    expected.push_str("END:VCALENDAR\r\n");
    assert_eq!(ics, expected);
    let parsed = parse_vtodo(&ics, "cal").unwrap();
    assert_eq!(parsed.summary, "Buy milk");
    assert!(!parsed.completed);
}

#[test]
fn task_emitter_completed_block() {
    let task = CalDavTask {
        id: "t2".to_string(),
        calendar_id: "cal".to_string(),
        summary: "Done".to_string(),
        description: None,
        completed: true,
        percent_complete: Some(40),
        priority: None,
        due: Some("2026-03-01T10:00:00".to_string()),
        created: Some("2026-02-01T08:00:00".to_string()),
        last_modified: None,
        status: None,
    };
    let ics = task_to_icalendar(&task, "20260301T000000Z");
    assert!(ics.contains("CREATED:20260201T080000\r\n"));
    assert!(ics.contains("DUE:20260301T100000\r\n"));
    assert!(ics.contains("STATUS:COMPLETED\r\nPERCENT-COMPLETE:100\r\nCOMPLETED:20260301T000000Z\r\n"));
    let parsed = parse_vtodo(&ics, "cal").unwrap();
    assert!(parsed.completed);
}
