//! IMAP-side data types and the pure protocol computations: fetch-range
//! pagination, flag commands, and the sent-folder probe list.

use vstd::prelude::*;

verus! {

/// An account's connection settings.
#[derive(Clone, Debug)]
pub struct MailAccount {
    pub imap_host: String,
    pub imap_port: u16,
    pub smtp_host: String,
    pub smtp_port: u16,
    pub username: String,
    pub password: String,
    pub display_name: String,
}

/// A mailbox as shown to the user (name already decoded from the wire form).
#[derive(Clone, Debug)]
pub struct Folder {
    pub name: String,
    pub delimiter: String,
    pub unread_count: u32,
    pub total_count: u32,
}

/// A message summary as listed in a folder.
#[derive(Clone, Debug)]
pub struct EmailHeader {
    pub uid: u32,
    pub subject: String,
    pub from: String,
    pub to: String,
    pub date: String,
    pub is_read: bool,
    pub is_flagged: bool,
    pub is_answered: bool,
    pub is_draft: bool,
    pub flags: Vec<String>,
    pub has_attachments: bool,
}

/// A fully fetched message.
#[derive(Clone, Debug)]
pub struct Email {
    pub uid: u32,
    pub subject: String,
    pub from: String,
    pub to: String,
    pub cc: String,
    pub date: String,
    pub body_text: String,
    pub body_html: String,
    pub attachments: Vec<Attachment>,
    pub is_read: bool,
    pub is_flagged: bool,
    pub is_answered: bool,
    pub is_draft: bool,
    pub flags: Vec<String>,
}

/// An attachment descriptor; `part_id` is the dotted MIME path on the wire.
#[derive(Clone, Debug)]
pub struct Attachment {
    pub filename: String,
    pub mime_type: String,
    pub size: usize,
    pub part_id: String,
    pub encoding: String,
}

/// The newest-first fetch window: with `total` messages in the folder, the
/// sequence numbers to request for page `(start, count)` are
/// `[total - start - count + 1 .. total - start]` clamped to `[1, total]`;
/// an empty window is `None`.
pub open spec fn spec_fetch_range(total: u32, start: u32, count: u32) -> Option<(u32, u32)> {
    let end: int = total - start;
    let begin: int = if end - count + 1 >= 1 {
        end - count + 1
    } else {
        1
    };
    if end < begin || count == 0 {
        None
    } else {
        Some((begin as u32, end as u32))
    }
}

/// Computes the message-sequence range for a newest-first header page.
pub fn fetch_range(total: u32, start: u32, count: u32) -> (r: Option<(u32, u32)>)
    ensures
        r == spec_fetch_range(total, start, count),
        r matches Some(p) ==> 1 <= p.0 <= p.1 <= total && p.1 - p.0 + 1 <= count,
{
    if total <= start || count == 0 {
        return None;
    }
    let end = total - start;
    let begin = if end >= count {
        end - count + 1
    } else {
        1
    };
    Some((begin, end))
}


/// Whether a flag list carries the given flag name.
pub open spec fn spec_has_flag(flags: Seq<String>, name: Seq<char>) -> bool {
    exists|i: int| 0 <= i < flags.len() && (#[trigger] flags[i])@ == name
}

fn has_flag(flags: &Vec<String>, name: &str) -> (r: bool)
    ensures
        r == spec_has_flag(flags@, name@),
{
    let mut i: usize = 0;
    while i < flags.len()
        invariant
            i <= flags@.len(),
            forall|k: int| 0 <= k < i ==> (#[trigger] flags@[k])@ != name@,
        decreases flags@.len() - i,
    {
        if crate::textutil::str_eq(flags[i].as_str(), name) {
            proof {
                assert(flags@[i as int]@ == name@);
            }
            return true;
        }
        i = i + 1;
    }
    false
}

/// Reads the four flag slots off a wire flag list: `\Seen`, `\Flagged`,
/// `\Answered` and `\Draft` each set exactly their slot.
pub fn flag_summary(flags: &Vec<String>) -> (r: (bool, bool, bool, bool))
    ensures
        r.0 == spec_has_flag(flags@, "\\Seen"@),
        r.1 == spec_has_flag(flags@, "\\Flagged"@),
        r.2 == spec_has_flag(flags@, "\\Answered"@),
        r.3 == spec_has_flag(flags@, "\\Draft"@),
{
    (
        has_flag(flags, "\\Seen"),
        has_flag(flags, "\\Flagged"),
        has_flag(flags, "\\Answered"),
        has_flag(flags, "\\Draft"),
    )
}

/// An envelope address displayed to the user: `mailbox@host`, with the
/// decoded display name in front when one is present.
pub fn format_address(name: &str, mailbox: &str, host: &str) -> (r: String)
    ensures
        name@.len() == 0 ==> r@ == mailbox@ + "@"@ + host@,
        name@.len() > 0 ==> r@ == name@ + " <"@ + mailbox@ + "@"@ + host@ + ">"@,
{
    let mut out = String::new();
    if !name.is_empty() {
        out.append(name);
        out.append(" <");
    }
    out.append(mailbox);
    out.append("@");
    out.append(host);
    if !name.is_empty() {
        out.append(">");
    }
    out
}

pub open spec fn spec_b64_shaped_byte(b: u8) -> bool {
    ||| 48 <= b <= 57
    ||| 65 <= b <= 90
    ||| 97 <= b <= 122
    ||| b == 43
    ||| b == 47
    ||| b == 61
    ||| b == 13
    ||| b == 10
}

/// Line breaks dropped, each byte read as its character.
pub open spec fn spec_b64_cleaned(body: Seq<u8>) -> Seq<char>
    decreases body.len(),
{
    if body.len() == 0 {
        Seq::empty()
    } else {
        spec_b64_cleaned(body.drop_last()) + (if body.last() == 13 || body.last() == 10 {
            Seq::<char>::empty()
        } else {
            seq![(body.last() as u32) as char]
        })
    }
}

/// How fetched attachment bytes decode: when every byte looks like base64
/// (alphanumeric, `+`, `/`, `=` or a line break), the payload is decoded
/// after dropping line breaks; otherwise, and when decoding fails, the bytes
/// pass through verbatim. The `Content-Transfer-Encoding` hint is
/// informational only; this shape test decides.
pub open spec fn spec_decode_attachment(body: Seq<u8>) -> Seq<u8> {
    if forall|i: int| 0 <= i < body.len() ==> spec_b64_shaped_byte(#[trigger] body[i]) {
        match crate::b64::spec_b64_decode_std(spec_b64_cleaned(body)) {
            Some(d) => d,
            None => body,
        }
    } else {
        body
    }
}

/// Decodes a fetched attachment body by the base64-shape heuristic.
pub fn decode_attachment_bytes(body: &Vec<u8>) -> (r: Vec<u8>)
    ensures
        r@ == spec_decode_attachment(body@),
{
    let mut shaped = true;
    let mut i: usize = 0;
    while i < body.len() && shaped
        invariant
            i <= body@.len(),
            shaped ==> forall|k: int| 0 <= k < i ==> spec_b64_shaped_byte(#[trigger] body@[k]),
            !shaped ==> exists|k: int| 0 <= k < body@.len() && !spec_b64_shaped_byte(
                #[trigger] body@[k],
            ),
        decreases body@.len() - i,
    {
        let b = body[i];
        let ok = (48 <= b && b <= 57) || (65 <= b && b <= 90) || (97 <= b && b <= 122) || b == 43
            || b == 47 || b == 61 || b == 13 || b == 10;
        if !ok {
            shaped = false;
            proof {
                assert(!spec_b64_shaped_byte(body@[i as int]));
            }
        }
        i = i + 1;
    }
    if !shaped {
        return copy_bytes(body);
    }
    let mut cleaned: Vec<char> = Vec::new();
    let mut k: usize = 0;
    proof {
        assert(cleaned@ =~= spec_b64_cleaned(body@.take(0)));
    }
    while k < body.len()
        invariant
            k <= body@.len(),
            cleaned@ == spec_b64_cleaned(body@.take(k as int)),
        decreases body@.len() - k,
    {
        let b = body[k];
        let ghost pre = cleaned@;
        if b != 13 && b != 10 {
            match crate::utf7::char_from_u32(b as u32) {
                Some(c) => {
                    proof {
                        vstd::utf8::char_u32_cast(c, b as u32);
                    }
                    cleaned.push(c);
                },
                None => {
                    proof {
                        assert(false);
                    }
                },
            }
        }
        proof {
            assert(body@.take(k as int + 1).drop_last() =~= body@.take(k as int));
            assert(body@.take(k as int + 1).last() == b);
            assert(cleaned@ =~= pre + (if b == 13 || b == 10 {
                Seq::<char>::empty()
            } else {
                seq![(b as u32) as char]
            }));
        }
        k = k + 1;
    }
    proof {
        assert(body@.take(k as int) =~= body@);
    }
    match crate::b64::b64_decode_std_chars(cleaned.as_slice()) {
        Some(d) => d,
        None => copy_bytes(body),
    }
}

pub(crate) fn copy_bytes(v: &Vec<u8>) -> (r: Vec<u8>)
    ensures
        r@ == v@,
{
    let mut out: Vec<u8> = Vec::new();
    let mut k: usize = 0;
    while k < v.len()
        invariant
            k <= v@.len(),
            out@ == v@.take(k as int),
        decreases v@.len() - k,
    {
        out.push(v[k]);
        proof {
            assert(v@.take(k as int + 1) =~= v@.take(k as int).push(v@[k as int]));
        }
        k = k + 1;
    }
    proof {
        assert(v@.take(k as int) =~= v@);
    }
    out
}

/// The folder names probed, in order, when appending a sent message: the
/// first successful append wins, so the order is part of the behaviour.
pub fn sent_folder_candidates() -> (r: Vec<String>)
    ensures
        r@.len() == 6,
        r@[0]@ == "Sent"@,
        r@[1]@ == "Gesendet"@,
        r@[2]@ == "INBOX.Sent"@,
        r@[3]@ == "INBOX.Gesendet"@,
        r@[4]@ == "Sent Items"@,
        r@[5]@ == "Sent Messages"@,
{
    let mut v: Vec<String> = Vec::new();
    v.push("Sent".to_owned());
    v.push("Gesendet".to_owned());
    v.push("INBOX.Sent".to_owned());
    v.push("INBOX.Gesendet".to_owned());
    v.push("Sent Items".to_owned());
    v.push("Sent Messages".to_owned());
    v
}

} // verus!
