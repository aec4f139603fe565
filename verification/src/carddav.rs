//! Contact data and the vCard 3.0 line codec: value escaping, the TYPE
//! parameter, and the line-by-line contact parser and serializer.

use vstd::prelude::*;

use crate::textutil::{
    chars_skip, chars_to_string, contains_seq, spec_contains_seq, spec_split, spec_starts_with,
    spec_trim, split_chars, starts_with_chars, str_to_chars, trim_chars, spec_find, find_char,
};
use crate::caldav::{spec_upper_seq, upper_chars};

verus! {

/// A phone number with its label.
#[derive(Clone, Debug)]
pub struct ContactPhone {
    pub number: String,
    pub label: String,
}

/// An address with its label.
#[derive(Clone, Debug)]
pub struct ContactEmail {
    pub email: String,
    pub label: String,
}

/// An address-book entry.
#[derive(Clone, Debug)]
pub struct Contact {
    pub id: String,
    pub display_name: String,
    pub first_name: String,
    pub last_name: String,
    pub emails: Vec<ContactEmail>,
    pub phones: Vec<ContactPhone>,
    pub organization: Option<String>,
    pub photo_url: Option<String>,
}

/// vCard value escaping: backslash, comma, semicolon and newline.
pub open spec fn spec_escape_vcard_char(c: char) -> Seq<char> {
    if c == '\\' {
        seq!['\\', '\\']
    } else if c == ',' {
        seq!['\\', ',']
    } else if c == ';' {
        seq!['\\', ';']
    } else if c == '\n' {
        seq!['\\', 'n']
    } else {
        seq![c]
    }
}

pub open spec fn spec_escape_vcard(s: Seq<char>) -> Seq<char>
    decreases s.len(),
{
    if s.len() == 0 {
        Seq::empty()
    } else {
        spec_escape_vcard(s.drop_last()) + spec_escape_vcard_char(s.last())
    }
}

/// Escapes a text value for a vCard line.
pub fn escape_vcard_value(value: &str) -> (r: String)
    ensures
        r@ == spec_escape_vcard(value@),
{
    let chars = str_to_chars(value);
    let mut out: Vec<char> = Vec::new();
    let mut i: usize = 0;
    proof {
        assert(out@ =~= spec_escape_vcard(chars@.take(0)));
    }
    while i < chars.len()
        invariant
            i <= chars@.len(),
            out@ == spec_escape_vcard(chars@.take(i as int)),
        decreases chars@.len() - i,
    {
        let c = chars[i];
        let ghost pre = out@;
        if c == '\\' {
            out.push('\\');
            out.push('\\');
        } else if c == ',' {
            out.push('\\');
            out.push(',');
        } else if c == ';' {
            out.push('\\');
            out.push(';');
        } else if c == '\n' {
            out.push('\\');
            out.push('n');
        } else {
            out.push(c);
        }
        proof {
            assert(chars@.take(i as int + 1).drop_last() =~= chars@.take(i as int));
            assert(chars@.take(i as int + 1).last() == c);
            assert(out@ =~= pre + spec_escape_vcard_char(c));
        }
        i = i + 1;
    }
    proof {
        assert(chars@.take(i as int) =~= chars@);
    }
    chars_to_string(&out)
}

/// vCard unescaping: `\n`, `\,`, `\;`, `\\` become the plain characters.
pub open spec fn spec_unescape_vcard(s: Seq<char>) -> Seq<char>
    decreases s.len(),
{
    if s.len() == 0 {
        Seq::empty()
    } else if s.len() >= 2 && s[0] == '\\' {
        if s[1] == 'n' {
            seq!['\n'] + spec_unescape_vcard(s.skip(2))
        } else if s[1] == ',' {
            seq![','] + spec_unescape_vcard(s.skip(2))
        } else if s[1] == ';' {
            seq![';'] + spec_unescape_vcard(s.skip(2))
        } else if s[1] == '\\' {
            seq!['\\'] + spec_unescape_vcard(s.skip(2))
        } else {
            seq![s[0]] + spec_unescape_vcard(s.skip(1))
        }
    } else {
        seq![s[0]] + spec_unescape_vcard(s.skip(1))
    }
}

fn unescape_vcard_chars(chars: &Vec<char>) -> (r: Vec<char>)
    ensures
        r@ == spec_unescape_vcard(chars@),
{
    let mut out: Vec<char> = Vec::new();
    let mut i: usize = 0;
    proof {
        assert(chars@.skip(0) =~= chars@);
        assert(out@ + spec_unescape_vcard(chars@.skip(0)) =~= spec_unescape_vcard(chars@));
    }
    while i < chars.len()
        invariant
            i <= chars@.len(),
            out@ + spec_unescape_vcard(chars@.skip(i as int)) == spec_unescape_vcard(chars@),
        decreases chars@.len() - i,
    {
        let ghost pre = out@;
        let ghost rem = chars@.skip(i as int);
        proof {
            assert(rem[0] == chars@[i as int]);
            if rem.len() >= 2 {
                assert(rem[1] == chars@[i as int + 1]);
                assert(rem.skip(2) =~= chars@.skip(i as int + 2));
            }
            assert(rem.skip(1) =~= chars@.skip(i as int + 1));
        }
        let c = chars[i];
        if c == '\\' && chars.len() - i >= 2 {
            let d = chars[i + 1];
            if d == 'n' {
                out.push('\n');
                i = i + 2;
            } else if d == ',' {
                out.push(',');
                i = i + 2;
            } else if d == ';' {
                out.push(';');
                i = i + 2;
            } else if d == '\\' {
                out.push('\\');
                i = i + 2;
            } else {
                out.push(c);
                i = i + 1;
            }
        } else {
            out.push(c);
            i = i + 1;
        }
        proof {
            assert(out@ + spec_unescape_vcard(chars@.skip(i as int)) =~= pre + spec_unescape_vcard(
                rem,
            ));
        }
    }
    proof {
        assert(chars@.skip(i as int) =~= Seq::<char>::empty());
        assert(out@ + Seq::<char>::empty() =~= out@);
    }
    out
}

/// The value part of a vCard line: the text after the first `:`, unescaped
/// and trimmed; the empty string when the line has no colon.
pub open spec fn spec_vcard_value(line: Seq<char>) -> Seq<char> {
    match spec_find(line, ':') {
        None => Seq::empty(),
        Some(p) => spec_trim(spec_unescape_vcard(line.skip(p + 1))),
    }
}

/// Extracts the value part of a vCard line.
pub fn extract_vcard_value(line: &Vec<char>) -> (r: Vec<char>)
    ensures
        r@ == spec_vcard_value(line@),
{
    let n = line.len();
    match find_char(line, ':') {
        None => Vec::new(),
        Some(p) => {
            proof {
                assert(p < n);
            }
            let rest = chars_skip(line, p + 1);
            let unescaped = unescape_vcard_chars(&rest);
            trim_chars(&unescaped)
        },
    }
}

/// The label a TYPE parameter names: `work`, `home` or `mobile`, matched
/// case-insensitively and with or without quotes.
pub open spec fn spec_type_param(line: Seq<char>) -> Option<Seq<char>> {
    let up = spec_upper_seq(line);
    if spec_contains_seq(up, "TYPE=WORK"@) || spec_contains_seq(up, "TYPE=\"WORK\""@) {
        Some("work"@)
    } else if spec_contains_seq(up, "TYPE=HOME"@) || spec_contains_seq(up, "TYPE=\"HOME\""@) {
        Some("home"@)
    } else if spec_contains_seq(up, "TYPE=CELL"@) || spec_contains_seq(up, "TYPE=\"CELL\""@) {
        Some("mobile"@)
    } else {
        None
    }
}

/// Extracts the TYPE parameter label of a vCard line.
pub fn extract_type_param(line: &Vec<char>) -> (r: Option<String>)
    ensures
        match r {
            Some(v) => spec_type_param(line@) == Some(v@),
            None => spec_type_param(line@) is None,
        },
{
    let up = upper_chars(line);
    if contains_seq(&up, &str_to_chars("TYPE=WORK")) || contains_seq(
        &up,
        &str_to_chars("TYPE=\"WORK\""),
    ) {
        Some("work".to_owned())
    } else if contains_seq(&up, &str_to_chars("TYPE=HOME")) || contains_seq(
        &up,
        &str_to_chars("TYPE=\"HOME\""),
    ) {
        Some("home".to_owned())
    } else if contains_seq(&up, &str_to_chars("TYPE=CELL")) || contains_seq(
        &up,
        &str_to_chars("TYPE=\"CELL\""),
    ) {
        Some("mobile".to_owned())
    } else {
        None
    }
}


/// The contact fields accumulated while scanning vCard lines.
#[verifier::ext_equal]
pub struct ContactStateV {
    pub uid: Seq<char>,
    pub display_name: Seq<char>,
    pub first_name: Seq<char>,
    pub last_name: Seq<char>,
    pub emails: Seq<(Seq<char>, Seq<char>)>,
    pub phones: Seq<(Seq<char>, Seq<char>)>,
    pub organization: Option<Seq<char>>,
}

pub open spec fn spec_contact_init() -> ContactStateV {
    ContactStateV {
        uid: Seq::empty(),
        display_name: Seq::empty(),
        first_name: Seq::empty(),
        last_name: Seq::empty(),
        emails: Seq::empty(),
        phones: Seq::empty(),
        organization: None,
    }
}

/// Semicolons replaced by spaces, as the ORG value reads.
pub open spec fn spec_semi_to_space(s: Seq<char>) -> Seq<char> {
    s.map_values(|c: char| if c == ';' { ' ' } else { c })
}

/// One vCard line applied to the state.
pub open spec fn spec_contact_line(st: ContactStateV, raw: Seq<char>) -> ContactStateV {
    let t = spec_trim(raw);
    if spec_starts_with(t, "UID:"@) {
        ContactStateV { uid: t.skip(4), ..st }
    } else if spec_starts_with(t, "FN:"@) || spec_starts_with(t, "FN;"@) {
        ContactStateV { display_name: spec_vcard_value(t), ..st }
    } else if spec_starts_with(t, "N:"@) || spec_starts_with(t, "N;"@) {
        let parts = spec_split(spec_vcard_value(t), ';');
        if parts.len() >= 2 {
            ContactStateV { last_name: parts[0], first_name: parts[1], ..st }
        } else {
            st
        }
    } else if spec_starts_with(t, "EMAIL"@) {
        let v = spec_vcard_value(t);
        if v.len() > 0 {
            let label = match spec_type_param(t) {
                Some(l) => l,
                None => "other"@,
            };
            ContactStateV { emails: st.emails.push((v, label)), ..st }
        } else {
            st
        }
    } else if spec_starts_with(t, "TEL"@) {
        let v = spec_vcard_value(t);
        if v.len() > 0 {
            let label = match spec_type_param(t) {
                Some(l) => l,
                None => "other"@,
            };
            ContactStateV { phones: st.phones.push((v, label)), ..st }
        } else {
            st
        }
    } else if spec_starts_with(t, "ORG:"@) || spec_starts_with(t, "ORG;"@) {
        let v = spec_vcard_value(t);
        if v.len() > 0 {
            ContactStateV { organization: Some(spec_trim(spec_semi_to_space(v))), ..st }
        } else {
            st
        }
    } else {
        st
    }
}

pub open spec fn spec_contact_fold(lines: Seq<Seq<char>>) -> ContactStateV
    decreases lines.len(),
{
    if lines.len() == 0 {
        spec_contact_init()
    } else {
        spec_contact_line(spec_contact_fold(lines.drop_last()), lines.last())
    }
}

/// What `parse_vcard` returns: the folded fields. A contact without a UID
/// takes the caller's fallback id; a missing display name falls back to the
/// name parts, then to the first address; a contact without addresses is
/// `None`.
pub open spec fn spec_contact_result(vcard: Seq<char>, fallback_id: Seq<char>) -> Option<
    ContactStateV,
> {
    let st = spec_contact_fold(spec_split(vcard, '\n'));
    if st.emails.len() == 0 {
        None
    } else {
        let with_id = if st.uid.len() == 0 {
            ContactStateV { uid: fallback_id, ..st }
        } else {
            st
        };
        if with_id.display_name.len() == 0 {
            if with_id.first_name.len() > 0 || with_id.last_name.len() > 0 {
                Some(
                    ContactStateV {
                        display_name: spec_trim(
                            with_id.first_name + " "@ + with_id.last_name,
                        ),
                        ..with_id
                    },
                )
            } else {
                Some(ContactStateV { display_name: with_id.emails[0].0, ..with_id })
            }
        } else {
            Some(with_id)
        }
    }
}

pub open spec fn spec_contact_matches(c: Contact, st: ContactStateV) -> bool {
    &&& c.id@ == st.uid
    &&& c.display_name@ == st.display_name
    &&& c.first_name@ == st.first_name
    &&& c.last_name@ == st.last_name
    &&& c.emails@.map_values(|e: ContactEmail| (e.email@, e.label@)) == st.emails
    &&& c.phones@.map_values(|p: ContactPhone| (p.number@, p.label@)) == st.phones
    &&& (match (c.organization, st.organization) {
        (Some(a), Some(b)) => a@ == b,
        (None, None) => true,
        _ => false,
    })
    &&& c.photo_url is None
}

pub open spec fn spec_contact_state(
    uid: Seq<char>,
    display_name: Seq<char>,
    first_name: Seq<char>,
    last_name: Seq<char>,
    emails: Seq<ContactEmail>,
    phones: Seq<ContactPhone>,
    organization: Option<String>,
) -> ContactStateV {
    ContactStateV {
        uid,
        display_name,
        first_name,
        last_name,
        emails: emails.map_values(|e: ContactEmail| (e.email@, e.label@)),
        phones: phones.map_values(|p: ContactPhone| (p.number@, p.label@)),
        organization: match organization {
            Some(o) => Some(o@),
            None => None,
        },
    }
}

/// Parses one vCard into a contact; a card without a UID takes
/// `fallback_id`, and a card without addresses is skipped.
#[verifier::rlimit(100)]
pub fn parse_vcard(vcard: &str, fallback_id: &str) -> (r: Option<Contact>)
    ensures
        match r {
            Some(c) => spec_contact_result(vcard@, fallback_id@) matches Some(st)
                && spec_contact_matches(c, st),
            None => spec_contact_result(vcard@, fallback_id@) is None,
        },
{
    let chars = str_to_chars(vcard);
    let lines = split_chars(&chars, '\n');
    let ghost lviews = lines@.map_values(|p: Vec<char>| p@);

    let mut uid: Vec<char> = Vec::new();
    let mut display_name: Vec<char> = Vec::new();
    let mut first_name: Vec<char> = Vec::new();
    let mut last_name: Vec<char> = Vec::new();
    let mut emails: Vec<ContactEmail> = Vec::new();
    let mut phones: Vec<ContactPhone> = Vec::new();
    let mut organization: Option<String> = None;

    let mut i: usize = 0;
    proof {
        assert(lviews.take(0) =~= Seq::<Seq<char>>::empty());
        assert(spec_contact_state(
            uid@,
            display_name@,
            first_name@,
            last_name@,
            emails@,
            phones@,
            organization,
        ) =~~= spec_contact_fold(lviews.take(0)));
    }
    while i < lines.len()
        invariant
            i <= lines@.len(),
            lviews == lines@.map_values(|p: Vec<char>| p@),
            spec_contact_state(
                uid@,
                display_name@,
                first_name@,
                last_name@,
                emails@,
                phones@,
                organization,
            ) == spec_contact_fold(lviews.take(i as int)),
        decreases lines@.len() - i,
    {
        let ghost st_pre = spec_contact_fold(lviews.take(i as int));
        proof {
            assert(lviews.take(i as int + 1).drop_last() =~= lviews.take(i as int));
            assert(lviews.take(i as int + 1).last() == lviews[i as int]);
            assert(lviews[i as int] == lines@[i as int]@);
            reveal_strlit("UID:");
        }
        let t = trim_chars(&lines[i]);
        if starts_with_chars(&t, &str_to_chars("UID:")) {
            uid = chars_skip(&t, 4);
        } else if starts_with_chars(&t, &str_to_chars("FN:")) || starts_with_chars(
            &t,
            &str_to_chars("FN;"),
        ) {
            display_name = extract_vcard_value(&t);
        } else if starts_with_chars(&t, &str_to_chars("N:")) || starts_with_chars(
            &t,
            &str_to_chars("N;"),
        ) {
            let value = extract_vcard_value(&t);
            let parts = split_chars(&value, ';');
            proof {
                assert(parts@.map_values(|p: Vec<char>| p@).len() == parts@.len());
                if parts@.len() >= 2 {
                    assert(parts@.map_values(|p: Vec<char>| p@)[0] == parts@[0]@);
                    assert(parts@.map_values(|p: Vec<char>| p@)[1] == parts@[1]@);
                }
            }
            if parts.len() >= 2 {
                last_name = copy_all(&parts[0]);
                first_name = copy_all(&parts[1]);
            }
        } else if starts_with_chars(&t, &str_to_chars("EMAIL")) {
            let value = extract_vcard_value(&t);
            if value.len() > 0 {
                let label = match extract_type_param(&t) {
                    Some(l) => l,
                    None => "other".to_owned(),
                };
                emails.push(ContactEmail { email: chars_to_string(&value), label });
                proof {
                    assert(emails@.map_values(|e: ContactEmail| (e.email@, e.label@))
                        =~= emails@.take(emails@.len() - 1).map_values(
                        |e: ContactEmail| (e.email@, e.label@),
                    ).push((emails@.last().email@, emails@.last().label@)));
                }
            }
        } else if starts_with_chars(&t, &str_to_chars("TEL")) {
            let value = extract_vcard_value(&t);
            if value.len() > 0 {
                let label = match extract_type_param(&t) {
                    Some(l) => l,
                    None => "other".to_owned(),
                };
                phones.push(ContactPhone { number: chars_to_string(&value), label });
                proof {
                    assert(phones@.map_values(|p: ContactPhone| (p.number@, p.label@))
                        =~= phones@.take(phones@.len() - 1).map_values(
                        |p: ContactPhone| (p.number@, p.label@),
                    ).push((phones@.last().number@, phones@.last().label@)));
                }
            }
        } else if starts_with_chars(&t, &str_to_chars("ORG:")) || starts_with_chars(
            &t,
            &str_to_chars("ORG;"),
        ) {
            let value = extract_vcard_value(&t);
            if value.len() > 0 {
                let mut spaced: Vec<char> = Vec::new();
                let mut k: usize = 0;
                proof {
                    assert(spaced@ =~= spec_semi_to_space(value@.take(0)));
                }
                while k < value.len()
                    invariant
                        k <= value@.len(),
                        spaced@ == spec_semi_to_space(value@.take(k as int)),
                    decreases value@.len() - k,
                {
                    let c = value[k];
                    if c == ';' {
                        spaced.push(' ');
                    } else {
                        spaced.push(c);
                    }
                    proof {
                        assert(spec_semi_to_space(value@.take(k as int + 1)) =~= spec_semi_to_space(
                            value@.take(k as int),
                        ).push(if value@[k as int] == ';' {
                            ' '
                        } else {
                            value@[k as int]
                        }));
                    }
                    k = k + 1;
                }
                proof {
                    assert(value@.take(k as int) =~= value@);
                }
                let trimmed = trim_chars(&spaced);
                organization = Some(chars_to_string(&trimmed));
            }
        }
        proof {
            assert(spec_contact_state(
                uid@,
                display_name@,
                first_name@,
                last_name@,
                emails@,
                phones@,
                organization,
            ) =~~= spec_contact_line(st_pre, lviews[i as int]));
        }
        i = i + 1;
    }
    proof {
        assert(lviews.take(i as int) =~= lviews);
    }
    if emails.len() == 0 {
        return None;
    }
    let id = if uid.len() == 0 {
        fallback_id.to_owned()
    } else {
        chars_to_string(&uid)
    };
    let final_display = if display_name.len() == 0 {
        if first_name.len() > 0 || last_name.len() > 0 {
            let mut joined: Vec<char> = copy_all(&first_name);
            joined.push(' ');
            let mut k: usize = 0;
            let ghost mid = joined@;
            while k < last_name.len()
                invariant
                    k <= last_name@.len(),
                    joined@ == mid + last_name@.take(k as int),
                decreases last_name@.len() - k,
            {
                joined.push(last_name[k]);
                proof {
                    assert(last_name@.take(k as int + 1) =~= last_name@.take(k as int).push(
                        last_name@[k as int],
                    ));
                }
                k = k + 1;
            }
            proof {
                assert(last_name@.take(k as int) =~= last_name@);
                assert(joined@ =~= first_name@ + " "@ + last_name@) by {
                    reveal_strlit(" ");
                }
            }
            let trimmed = trim_chars(&joined);
            chars_to_string(&trimmed)
        } else {
            let first = &emails[0];
            first.email.clone()
        }
    } else {
        chars_to_string(&display_name)
    };
    Some(
        Contact {
            id,
            display_name: final_display,
            first_name: chars_to_string(&first_name),
            last_name: chars_to_string(&last_name),
            emails,
            phones,
            organization,
            photo_url: None,
        },
    )
}

fn copy_all(v: &Vec<char>) -> (r: Vec<char>)
    ensures
        r@ == v@,
{
    let mut out: Vec<char> = Vec::new();
    let mut k: usize = 0;
    while k < v.len()
        invariant
            k <= v@.len(),
            out@ == v@.take(k as int),
        decreases v@.len() - k,
    {
        out.push(v[k]);
        proof {
            assert(v@.take(k as int + 1) =~= v@.take(k as int).push(v@[k as int]));
        }
        k = k + 1;
    }
    proof {
        assert(v@.take(k as int) =~= v@);
    }
    out
}



/// What the MD5 digest is: a function of the bytes alone.
pub uninterp spec fn spec_md5_digest(data: Seq<u8>) -> Seq<u8>;

/// Relies on md5::compute: a 16-byte digest, deterministic in the input.
#[verifier::external_body]
pub fn md5_digest(data: &[u8]) -> (r: Vec<u8>)
    ensures
        r@ == spec_md5_digest(data@),
        r@.len() == 16,
{
    md5::compute(data).0.to_vec()
}

/// The stable id given to a card without a UID: the hex MD5 of its text, as
/// `parse_vcard`'s fallback.
pub fn vcard_fallback_id(vcard: &str) -> (r: String)
    ensures
        r@ == crate::crypto::spec_hex_lower(
            spec_md5_digest(vstd::utf8::encode_utf8(vcard@)),
        ),
{
    let digest = md5_digest(vcard.as_bytes());
    crate::crypto::hex_encode(digest.as_slice())
}

/// The TYPE written for an address label.
pub open spec fn spec_email_type(label: Seq<char>) -> Seq<char> {
    if label == "work"@ {
        "WORK"@
    } else if label == "home"@ {
        "HOME"@
    } else {
        "OTHER"@
    }
}

/// The TYPE written for a phone label.
pub open spec fn spec_phone_type(label: Seq<char>) -> Seq<char> {
    if label == "work"@ {
        "WORK"@
    } else if label == "home"@ {
        "HOME"@
    } else if label == "mobile"@ {
        "CELL"@
    } else {
        "OTHER"@
    }
}

pub open spec fn spec_email_lines(emails: Seq<(Seq<char>, Seq<char>)>) -> Seq<char>
    decreases emails.len(),
{
    if emails.len() == 0 {
        Seq::empty()
    } else {
        spec_email_lines(emails.drop_last()) + "EMAIL;TYPE="@ + spec_email_type(
            emails.last().1,
        ) + ":"@ + emails.last().0 + "\r\n"@
    }
}

pub open spec fn spec_phone_lines(phones: Seq<(Seq<char>, Seq<char>)>) -> Seq<char>
    decreases phones.len(),
{
    if phones.len() == 0 {
        Seq::empty()
    } else {
        spec_phone_lines(phones.drop_last()) + "TEL;TYPE="@ + spec_phone_type(
            phones.last().1,
        ) + ":"@ + phones.last().0 + "\r\n"@
    }
}

/// The vCard 3.0 text of a contact.
pub open spec fn spec_contact_vcard(c: Contact) -> Seq<char> {
    "BEGIN:VCARD\r\n"@ + "VERSION:3.0\r\n"@ + "UID:"@ + c.id@ + "\r\n"@ + "FN:"@
        + spec_escape_vcard(c.display_name@) + "\r\n"@ + "N:"@ + spec_escape_vcard(c.last_name@)
        + ";"@ + spec_escape_vcard(c.first_name@) + ";;;\r\n"@ + spec_email_lines(
        c.emails@.map_values(|e: ContactEmail| (e.email@, e.label@)),
    ) + spec_phone_lines(c.phones@.map_values(|p: ContactPhone| (p.number@, p.label@))) + (
    match c.organization {
        Some(o) => "ORG:"@ + spec_escape_vcard(o@) + "\r\n"@,
        None => Seq::<char>::empty(),
    }) + "END:VCARD\r\n"@
}

/// Serializes a contact as a vCard 3.0 card.
#[verifier::rlimit(100)]
pub fn contact_to_vcard(contact: &Contact) -> (r: String)
    ensures
        r@ == spec_contact_vcard(*contact),
{
    let mut out = String::new();
    out.append("BEGIN:VCARD\r\n");
    out.append("VERSION:3.0\r\n");
    out.append("UID:");
    out.append(contact.id.as_str());
    out.append("\r\n");
    out.append("FN:");
    let dn = escape_vcard_value(contact.display_name.as_str());
    out.append(dn.as_str());
    out.append("\r\n");
    out.append("N:");
    let ln = escape_vcard_value(contact.last_name.as_str());
    out.append(ln.as_str());
    out.append(";");
    let fnm = escape_vcard_value(contact.first_name.as_str());
    out.append(fnm.as_str());
    out.append(";;;\r\n");
    let ghost evs = contact.emails@.map_values(|e: ContactEmail| (e.email@, e.label@));
    let ghost before_emails = out@;
    let mut i: usize = 0;
    proof {
        assert(evs.take(0) =~= Seq::<(Seq<char>, Seq<char>)>::empty());
        assert(out@ =~= before_emails + spec_email_lines(evs.take(0)));
    }
    while i < contact.emails.len()
        invariant
            i <= contact.emails@.len(),
            evs == contact.emails@.map_values(|e: ContactEmail| (e.email@, e.label@)),
            out@ == before_emails + spec_email_lines(evs.take(i as int)),
        decreases contact.emails@.len() - i,
    {
        proof {
            assert(evs.take(i as int + 1).drop_last() =~= evs.take(i as int));
            assert(evs.take(i as int + 1).last() == evs[i as int]);
            assert(evs[i as int] == (contact.emails@[i as int].email@,
            contact.emails@[i as int].label@));
        }
        let e = &contact.emails[i];
        out.append("EMAIL;TYPE=");
        if crate::textutil::str_eq(e.label.as_str(), "work") {
            out.append("WORK");
        } else if crate::textutil::str_eq(e.label.as_str(), "home") {
            out.append("HOME");
        } else {
            out.append("OTHER");
        }
        out.append(":");
        out.append(e.email.as_str());
        out.append("\r\n");
        proof {
            assert(out@ =~= before_emails + spec_email_lines(evs.take(i as int + 1)));
        }
        i = i + 1;
    }
    proof {
        assert(evs.take(i as int) =~= evs);
    }
    let ghost pvs = contact.phones@.map_values(|p: ContactPhone| (p.number@, p.label@));
    let ghost before_phones = out@;
    let mut j: usize = 0;
    proof {
        assert(pvs.take(0) =~= Seq::<(Seq<char>, Seq<char>)>::empty());
        assert(out@ =~= before_phones + spec_phone_lines(pvs.take(0)));
    }
    while j < contact.phones.len()
        invariant
            j <= contact.phones@.len(),
            pvs == contact.phones@.map_values(|p: ContactPhone| (p.number@, p.label@)),
            out@ == before_phones + spec_phone_lines(pvs.take(j as int)),
        decreases contact.phones@.len() - j,
    {
        proof {
            assert(pvs.take(j as int + 1).drop_last() =~= pvs.take(j as int));
            assert(pvs.take(j as int + 1).last() == pvs[j as int]);
            assert(pvs[j as int] == (contact.phones@[j as int].number@,
            contact.phones@[j as int].label@));
        }
        let p = &contact.phones[j];
        out.append("TEL;TYPE=");
        if crate::textutil::str_eq(p.label.as_str(), "work") {
            out.append("WORK");
        } else if crate::textutil::str_eq(p.label.as_str(), "home") {
            out.append("HOME");
        } else if crate::textutil::str_eq(p.label.as_str(), "mobile") {
            out.append("CELL");
        } else {
            out.append("OTHER");
        }
        out.append(":");
        out.append(p.number.as_str());
        out.append("\r\n");
        proof {
            assert(out@ =~= before_phones + spec_phone_lines(pvs.take(j as int + 1)));
        }
        j = j + 1;
    }
    proof {
        assert(pvs.take(j as int) =~= pvs);
    }
    match &contact.organization {
        Some(org) => {
            out.append("ORG:");
            let o = escape_vcard_value(org.as_str());
            out.append(o.as_str());
            out.append("\r\n");
        },
        None => {},
    }
    out.append("END:VCARD\r\n");
    proof {
        assert(out@ =~= spec_contact_vcard(*contact));
    }
    out
}

} // verus!
