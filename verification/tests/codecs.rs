use mailclient::ai::extract_json;
use mailclient::b64::{b64_decode_std, b64_encode_std};
use mailclient::rfc2047::{decode_quoted_printable, decode_rfc2047};
use mailclient::uidseq::{parse_uid_sequence, uids_to_sequence};
use mailclient::utf7::{decode_imap_utf7, encode_imap_utf7};

#[test]
fn test_extract_json() {
    let input = r#"Here is the result: {"category_id": "work", "confidence": 0.9} done"#;
    let expected = r#"{"category_id": "work", "confidence": 0.9}"#;
    assert_eq!(extract_json(input), expected);
}

#[test]
fn extract_json_passes_malformed_through() {
    assert_eq!(extract_json("no braces at all"), "no braces at all");
    assert_eq!(extract_json("} reversed {"), "} reversed {");
    assert_eq!(extract_json(""), "");
}

#[test]
fn utf7_round_trip_umlaut() {
    let encoded = encode_imap_utf7("Entw\u{fc}rfe");
    assert_eq!(encoded, "Entw&APw-rfe");
    assert_eq!(decode_imap_utf7(&encoded), "Entw\u{fc}rfe");
}

#[test]
fn utf7_ampersand_and_ascii() {
    assert_eq!(encode_imap_utf7("A&B"), "A&-B");
    assert_eq!(decode_imap_utf7("A&-B"), "A&B");
    assert_eq!(encode_imap_utf7("INBOX.Sent"), "INBOX.Sent");
    assert_eq!(decode_imap_utf7("INBOX.Sent"), "INBOX.Sent");
}

#[test]
fn utf7_malformed_block_passes_through() {
    assert_eq!(decode_imap_utf7("&!!!-x"), "&!!!-x");
}

#[test]
fn rfc2047_base64_word() {
    assert_eq!(
        decode_rfc2047("=?UTF-8?B?RW50d8O8cmZl?= test"),
        "Entw\u{fc}rfe test"
    );
}

#[test]
fn rfc2047_elides_space_between_words() {
    assert_eq!(decode_rfc2047("=?UTF-8?Q?foo?= =?UTF-8?Q?bar?="), "foobar");
}

#[test]
fn rfc2047_q_encoding_underscore_and_hex() {
    assert_eq!(decode_rfc2047("=?UTF-8?Q?a_b=21?="), "a b!");
}

#[test]
fn rfc2047_latin1_charset() {
    assert_eq!(decode_rfc2047("=?ISO-8859-1?Q?caf=E9?="), "caf\u{e9}");
}

#[test]
fn rfc2047_malformed_token_stays() {
    assert_eq!(decode_rfc2047("=?UTF-8?X?abc?="), "=?UTF-8?X?abc?=");
    assert_eq!(decode_rfc2047("plain text"), "plain text");
}

#[test]
fn quoted_printable_decodes_hex_pairs() {
    let bytes = decode_quoted_printable("=41=42C").unwrap();
    assert_eq!(bytes, b"ABC".to_vec());
}

#[test]
fn uid_sequence_compacts_runs() {
    assert_eq!(uids_to_sequence(&[1, 2, 3, 5, 10, 9]), "1:3,5,9:10");
    assert_eq!(uids_to_sequence(&[7]), "7");
    assert_eq!(uids_to_sequence(&[]), "");
}

#[test]
fn uid_sequence_round_trip() {
    let uids = vec![4u32, 8, 5, 6, 20, 21, 1];
    let compact = uids_to_sequence(&uids);
    let mut parsed = parse_uid_sequence(&compact).unwrap();
    parsed.sort_unstable();
    let mut sorted = uids.clone();
    sorted.sort_unstable();
    assert_eq!(parsed, sorted);
}

#[test]
fn uid_sequence_rejects_garbage() {
    assert!(parse_uid_sequence("1,,3").is_none());
    assert!(parse_uid_sequence("5:1").is_none());
    assert!(parse_uid_sequence("x").is_none());
}

#[test]
fn base64_known_vectors() {
    assert_eq!(b64_encode_std(b"Hello"), "SGVsbG8=");
    assert_eq!(b64_decode_std("SGVsbG8=").unwrap(), b"Hello".to_vec());
    assert_eq!(b64_encode_std(b""), "");
    assert_eq!(b64_encode_std(b"ab"), "YWI=");
    assert!(b64_decode_std("@@@@").is_none());
}
