//! Calendar data and the iCalendar line codec: VEVENT and VTODO parsing,
//! value escaping, and the date conversions between ISO 8601 and the compact
//! iCalendar forms.

use vstd::prelude::*;

use crate::textutil::{
    chars_skip, spec_find_sub, spec_lower_seq, spec_find,
    chars_to_string, spec_split, spec_starts_with, spec_trim, split_chars, starts_with_chars,
    str_to_chars, trim_chars, spec_contains_seq, contains_seq,
    find_char, push_u64_digits, replace_all, spec_replace_all, spec_u64_digits,
};

verus! {

/// CalDAV connection settings for an account.
#[derive(Clone, Debug)]
pub struct CalDavConfig {
    pub host: String,
    pub username: String,
    pub password: String,
    pub calendar_ids: Vec<String>,
}

/// A calendar collection on the server.
#[derive(Clone, Debug)]
pub struct Calendar {
    pub id: String,
    pub name: String,
    pub color: Option<String>,
    pub description: Option<String>,
}

/// An event attendee or organizer.
#[derive(Clone, Debug)]
pub struct EventAttendee {
    pub email: String,
    pub name: Option<String>,
    pub role: String,
    pub status: String,
    pub rsvp: bool,
}

/// A calendar event; dates are ISO 8601 strings.
#[derive(Clone, Debug)]
pub struct CalendarEvent {
    pub id: String,
    pub calendar_id: String,
    pub summary: String,
    pub description: Option<String>,
    pub location: Option<String>,
    pub start: String,
    pub end: String,
    pub all_day: bool,
    pub recurrence_rule: Option<String>,
    pub color: Option<String>,
    pub organizer: Option<EventAttendee>,
    pub attendees: Vec<EventAttendee>,
}

/// A VTODO task.
#[derive(Clone, Debug)]
pub struct CalDavTask {
    pub id: String,
    pub calendar_id: String,
    pub summary: String,
    pub description: Option<String>,
    pub completed: bool,
    pub percent_complete: Option<u8>,
    pub priority: Option<u8>,
    pub due: Option<String>,
    pub created: Option<String>,
    pub last_modified: Option<String>,
    pub status: Option<String>,
}

/// Escaping for iCalendar text values: backslash, semicolon, comma and
/// newline are escaped; carriage returns are dropped.
pub open spec fn spec_escape_ical_char(c: char) -> Seq<char> {
    if c == '\\' {
        seq!['\\', '\\']
    } else if c == ';' {
        seq!['\\', ';']
    } else if c == ',' {
        seq!['\\', ',']
    } else if c == '\n' {
        seq!['\\', 'n']
    } else if c == '\r' {
        Seq::empty()
    } else {
        seq![c]
    }
}

pub open spec fn spec_escape_ical(s: Seq<char>) -> Seq<char>
    decreases s.len(),
{
    if s.len() == 0 {
        Seq::empty()
    } else {
        spec_escape_ical(s.drop_last()) + spec_escape_ical_char(s.last())
    }
}

/// Escapes a text value for an iCalendar line.
pub fn escape_icalendar(text: &str) -> (r: String)
    ensures
        r@ == spec_escape_ical(text@),
{
    let chars = str_to_chars(text);
    let mut out: Vec<char> = Vec::new();
    let mut i: usize = 0;
    proof {
        assert(out@ =~= spec_escape_ical(chars@.take(0)));
    }
    while i < chars.len()
        invariant
            i <= chars@.len(),
            out@ == spec_escape_ical(chars@.take(i as int)),
        decreases chars@.len() - i,
    {
        let c = chars[i];
        let ghost pre = out@;
        if c == '\\' {
            out.push('\\');
            out.push('\\');
        } else if c == ';' {
            out.push('\\');
            out.push(';');
        } else if c == ',' {
            out.push('\\');
            out.push(',');
        } else if c == '\n' {
            out.push('\\');
            out.push('n');
        } else if c == '\r' {
        } else {
            out.push(c);
        }
        proof {
            assert(chars@.take(i as int + 1).drop_last() =~= chars@.take(i as int));
            assert(chars@.take(i as int + 1).last() == c);
            assert(out@ =~= pre + spec_escape_ical_char(c));
        }
        i = i + 1;
    }
    proof {
        assert(chars@.take(i as int) =~= chars@);
    }
    chars_to_string(&out)
}

/// Unescaping for iCalendar text: `\n`, `\,`, `\;`, `\\` become the plain
/// characters; any other backslash pair stays as written.
pub open spec fn spec_unescape_ical(s: Seq<char>) -> Seq<char>
    decreases s.len(),
{
    if s.len() == 0 {
        Seq::empty()
    } else if s.len() >= 2 && s[0] == '\\' {
        if s[1] == 'n' {
            seq!['\n'] + spec_unescape_ical(s.skip(2))
        } else if s[1] == ',' {
            seq![','] + spec_unescape_ical(s.skip(2))
        } else if s[1] == ';' {
            seq![';'] + spec_unescape_ical(s.skip(2))
        } else if s[1] == '\\' {
            seq!['\\'] + spec_unescape_ical(s.skip(2))
        } else {
            seq![s[0]] + spec_unescape_ical(s.skip(1))
        }
    } else {
        seq![s[0]] + spec_unescape_ical(s.skip(1))
    }
}

/// Unescapes an iCalendar text value.
pub fn unescape_icalendar(text: &str) -> (r: String)
    ensures
        r@ == spec_unescape_ical(text@),
{
    let chars = str_to_chars(text);
    let mut out: Vec<char> = Vec::new();
    let mut i: usize = 0;
    proof {
        assert(chars@.skip(0) =~= chars@);
        assert(out@ + spec_unescape_ical(chars@.skip(0)) =~= spec_unescape_ical(chars@));
    }
    while i < chars.len()
        invariant
            i <= chars@.len(),
            out@ + spec_unescape_ical(chars@.skip(i as int)) == spec_unescape_ical(chars@),
        decreases chars@.len() - i,
    {
        let ghost pre = out@;
        let ghost rem = chars@.skip(i as int);
        proof {
            assert(rem[0] == chars@[i as int]);
            if rem.len() >= 2 {
                assert(rem[1] == chars@[i as int + 1]);
            }
            assert(rem.skip(1) =~= chars@.skip(i as int + 1));
            if rem.len() >= 2 {
                assert(rem.skip(2) =~= chars@.skip(i as int + 2));
            }
        }
        let c = chars[i];
        if c == '\\' && chars.len() - i >= 2 {
            let d = chars[i + 1];
            if d == 'n' {
                out.push('\n');
                i = i + 2;
            } else if d == ',' {
                out.push(',');
                i = i + 2;
            } else if d == ';' {
                out.push(';');
                i = i + 2;
            } else if d == '\\' {
                out.push('\\');
                i = i + 2;
            } else {
                out.push(c);
                i = i + 1;
            }
        } else {
            out.push(c);
            i = i + 1;
        }
        proof {
            assert(out@ + spec_unescape_ical(chars@.skip(i as int)) =~= pre + spec_unescape_ical(
                rem,
            ));
        }
    }
    proof {
        assert(chars@.skip(i as int) =~= Seq::<char>::empty());
        assert(out@ + Seq::<char>::empty() =~= out@);
    }
    chars_to_string(&out)
}

/// Drops `-` and `:` from an ISO date-time, the compact iCalendar form.
pub open spec fn spec_iso_to_ical_dt(s: Seq<char>) -> Seq<char>
    decreases s.len(),
{
    if s.len() == 0 {
        Seq::empty()
    } else {
        spec_iso_to_ical_dt(s.drop_last()) + (if s.last() == '-' || s.last() == ':' {
            Seq::empty()
        } else {
            seq![s.last()]
        })
    }
}

/// Converts an ISO date-time to the compact iCalendar form.
pub fn iso_to_icalendar_dt(iso: &str) -> (r: String)
    ensures
        r@ == spec_iso_to_ical_dt(iso@),
{
    let chars = str_to_chars(iso);
    let mut out: Vec<char> = Vec::new();
    let mut i: usize = 0;
    proof {
        assert(out@ =~= spec_iso_to_ical_dt(chars@.take(0)));
    }
    while i < chars.len()
        invariant
            i <= chars@.len(),
            out@ == spec_iso_to_ical_dt(chars@.take(i as int)),
        decreases chars@.len() - i,
    {
        let c = chars[i];
        let ghost pre = out@;
        if c != '-' && c != ':' {
            out.push(c);
        }
        proof {
            assert(chars@.take(i as int + 1).drop_last() =~= chars@.take(i as int));
            assert(chars@.take(i as int + 1).last() == c);
            assert(out@ =~= pre + (if c == '-' || c == ':' {
                Seq::<char>::empty()
            } else {
                seq![c]
            }));
        }
        i = i + 1;
    }
    proof {
        assert(chars@.take(i as int) =~= chars@);
    }
    chars_to_string(&out)
}

/// The CalDAV time-range form of an ISO date: `YYYYMMDDT{HHMMSS}Z`, with the
/// time zero-filled for a bare date; an unrecognizable string is an error.
pub open spec fn spec_iso_to_caldav(s: Seq<char>) -> Option<Seq<char>> {
    let clean = spec_iso_to_ical_dt(s);
    if clean.len() == 8 {
        Some(clean + "T000000Z"@)
    } else if clean.len() >= 8 && spec_contains_seq(clean, "T"@) {
        let parts = spec_split(clean, 'T');
        if parts.len() == 2 {
            let time = spec_without_z(parts[1]);
            if time.len() >= 6 {
                Some(parts[0] + "T"@ + time.take(6) + "Z"@)
            } else {
                Some(parts[0] + "T"@ + time + spec_zeros(6 - time.len()) + "Z"@)
            }
        } else {
            None
        }
    } else {
        None
    }
}

pub open spec fn spec_without_z(s: Seq<char>) -> Seq<char>
    decreases s.len(),
{
    if s.len() == 0 {
        Seq::empty()
    } else {
        spec_without_z(s.drop_last()) + (if s.last() == 'Z' {
            Seq::empty()
        } else {
            seq![s.last()]
        })
    }
}

pub open spec fn spec_zeros(n: int) -> Seq<char>
    decreases n,
{
    if n <= 0 {
        Seq::empty()
    } else {
        spec_zeros(n - 1) + seq!['0']
    }
}

/// Converts an ISO date or date-time into the CalDAV query form.
pub fn iso_to_caldav_date(iso: &str) -> (r: Result<String, String>)
    ensures
        match r {
            Ok(v) => spec_iso_to_caldav(iso@) == Some(v@),
            Err(_) => spec_iso_to_caldav(iso@) is None,
        },
{
    let clean_s = iso_to_icalendar_dt(iso);
    let clean = str_to_chars(clean_s.as_str());
    if clean.len() == 8 {
        let mut out = chars_to_string(&clean);
        out.append("T000000Z");
        proof {
            assert(out@ =~= spec_iso_to_caldav(iso@)->0);
        }
        return Ok(out);
    }
    let tpat = str_to_chars("T");
    if clean.len() >= 8 && contains_seq(&clean, &tpat) {
        let parts = split_chars(&clean, 'T');
        proof {
            assert(parts@.map_values(|p: Vec<char>| p@).len() == parts@.len());
        }
        if parts.len() == 2 {
            proof {
                assert(parts@.map_values(|p: Vec<char>| p@)[0] == parts@[0]@);
                assert(parts@.map_values(|p: Vec<char>| p@)[1] == parts@[1]@);
            }
            let mut time: Vec<char> = Vec::new();
            let ghost tsrc = parts@[1]@;
            let mut k: usize = 0;
            proof {
                assert(time@ =~= spec_without_z(tsrc.take(0)));
            }
            while k < parts[1].len()
                invariant
                    k <= tsrc.len(),
                    tsrc == parts@[1]@,
                    parts@.len() == 2,
                    time@ == spec_without_z(tsrc.take(k as int)),
                decreases tsrc.len() - k,
            {
                let c = parts[1][k];
                let ghost pre = time@;
                if c != 'Z' {
                    time.push(c);
                }
                proof {
                    assert(tsrc.take(k as int + 1).drop_last() =~= tsrc.take(k as int));
                    assert(tsrc.take(k as int + 1).last() == c);
                    assert(time@ =~= pre + (if c == 'Z' {
                        Seq::<char>::empty()
                    } else {
                        seq![c]
                    }));
                }
                k = k + 1;
            }
            proof {
                assert(tsrc.take(k as int) =~= tsrc);
            }
            let mut out_chars: Vec<char> = Vec::new();
            let mut m: usize = 0;
            while m < parts[0].len()
                invariant
                    m <= parts@[0]@.len(),
                    parts@.len() == 2,
                    out_chars@ == parts@[0]@.take(m as int),
                decreases parts@[0]@.len() - m,
            {
                out_chars.push(parts[0][m]);
                proof {
                    assert(parts@[0]@.take(m as int + 1) =~= parts@[0]@.take(m as int).push(
                        parts@[0]@[m as int],
                    ));
                }
                m = m + 1;
            }
            proof {
                assert(parts@[0]@.take(m as int) =~= parts@[0]@);
            }
            out_chars.push('T');
            let ghost mid = out_chars@;
            let ghost wz = spec_without_z(tsrc);
            proof {
                assert(time@ == wz);
            }
            if time.len() >= 6 {
                push_range_of(&time, 0, 6, &mut out_chars);
                proof {
                    assert(time@.subrange(0, 6) =~= wz.take(6));
                }
            } else {
                let mut q: usize = 0;
                while q < time.len()
                    invariant
                        q <= time@.len(),
                        time@ == wz,
                        out_chars@ == mid + wz.take(q as int),
                        mid == out_chars@.take(mid.len() as int),
                    decreases time@.len() - q,
                {
                    out_chars.push(time[q]);
                    proof {
                        assert(wz.take(q as int + 1) =~= wz.take(q as int).push(wz[q as int]));
                    }
                    q = q + 1;
                }
                proof {
                    assert(wz.take(q as int) =~= wz);
                }
                let mut z: usize = time.len();
                while z < 6
                    invariant
                        time@ == wz,
                        wz.len() <= z <= 6,
                        out_chars@ == mid + wz + spec_zeros(z - wz.len()),
                    decreases 6 - z,
                {
                    out_chars.push('0');
                    proof {
                        assert(spec_zeros(z + 1 - wz.len()) =~= spec_zeros(z - wz.len()).push(
                            '0',
                        ));
                        assert(out_chars@ =~= mid + wz + spec_zeros(z + 1 - wz.len()));
                    }
                    z = z + 1;
                }
            }
            out_chars.push('Z');
            proof {
                let expect = spec_iso_to_caldav(iso@);
                if wz.len() >= 6 {
                    assert(out_chars@ =~= parts@[0]@ + "T"@ + wz.take(6) + "Z"@) by {
                        reveal_strlit("T");
                        reveal_strlit("Z");
                    }
                } else {
                    assert(out_chars@ =~= parts@[0]@ + "T"@ + wz + spec_zeros(6 - wz.len())
                        + "Z"@) by {
                        reveal_strlit("T");
                        reveal_strlit("Z");
                    }
                }
            }
            return Ok(chars_to_string(&out_chars));
        } else {
            let mut msg = String::new();
            msg.append("Invalid date format: ");
            msg.append(iso);
            return Err(msg);
        }
    }
    let mut msg = String::new();
    msg.append("Invalid date format: ");
    msg.append(iso);
    Err(msg)
}

/// The ISO form of a compact iCalendar date or date-time: dashes and colons
/// restored, a trailing `Z` kept; anything shorter passes through.
pub open spec fn spec_ical_dt_to_iso(v: Seq<char>) -> Seq<char> {
    if v.len() >= 15 && spec_contains_seq(v, "T"@) {
        if spec_without_z(v).len() >= 15 {
            let is_utc = v.last() == 'Z';
            let clean = spec_without_z(v);
            clean.take(4) + "-"@ + clean.subrange(4, 6) + "-"@ + clean.subrange(6, 8) + "T"@
                + clean.subrange(9, 11) + ":"@ + clean.subrange(11, 13) + ":"@ + clean.subrange(
                13,
                15,
            ) + (if is_utc {
                "Z"@
            } else {
                Seq::empty()
            })
        } else {
            v
        }
    } else if v.len() >= 8 {
        v.take(4) + "-"@ + v.subrange(4, 6) + "-"@ + v.subrange(6, 8)
    } else {
        v
    }
}

/// Converts a compact iCalendar date-time back to ISO 8601.
#[verifier::rlimit(100)]
pub fn parse_icalendar_dt_to_iso(val: &str) -> (r: String)
    ensures
        r@ == spec_ical_dt_to_iso(val@),
{
    let chars = str_to_chars(val);
    let tpat = str_to_chars("T");
    if chars.len() >= 15 && contains_seq(&chars, &tpat) {
        let is_utc = chars.len() > 0 && chars[chars.len() - 1] == 'Z';
        let mut clean: Vec<char> = Vec::new();
        let mut i: usize = 0;
        proof {
            assert(clean@ =~= spec_without_z(chars@.take(0)));
        }
        while i < chars.len()
            invariant
                i <= chars@.len(),
                clean@ == spec_without_z(chars@.take(i as int)),
            decreases chars@.len() - i,
        {
            let c = chars[i];
            let ghost pre = clean@;
            if c != 'Z' {
                clean.push(c);
            }
            proof {
                assert(chars@.take(i as int + 1).drop_last() =~= chars@.take(i as int));
                assert(chars@.take(i as int + 1).last() == c);
                assert(clean@ =~= pre + (if c == 'Z' {
                    Seq::<char>::empty()
                } else {
                    seq![c]
                }));
            }
            i = i + 1;
        }
        proof {
            assert(chars@.take(i as int) =~= chars@);
        }
        if clean.len() < 15 {
            let mut out = String::new();
            out.append(val);
            return out;
        }
        let mut out: Vec<char> = Vec::new();
        push_range_of(&clean, 0, 4, &mut out);
        out.push('-');
        push_range_of(&clean, 4, 6, &mut out);
        out.push('-');
        push_range_of(&clean, 6, 8, &mut out);
        out.push('T');
        push_range_of(&clean, 9, 11, &mut out);
        out.push(':');
        push_range_of(&clean, 11, 13, &mut out);
        out.push(':');
        push_range_of(&clean, 13, 15, &mut out);
        if is_utc {
            out.push('Z');
        }
        proof {
            assert(chars@.last() == 'Z' ==> is_utc);
            assert(out@ =~= spec_ical_dt_to_iso(val@)) by {
                reveal_strlit("-");
                reveal_strlit("T");
                reveal_strlit(":");
                reveal_strlit("Z");
            }
        }
        chars_to_string(&out)
    } else if chars.len() >= 8 {
        let mut out: Vec<char> = Vec::new();
        push_range_of(&chars, 0, 4, &mut out);
        out.push('-');
        push_range_of(&chars, 4, 6, &mut out);
        out.push('-');
        push_range_of(&chars, 6, 8, &mut out);
        proof {
            assert(chars@.take(4) =~= chars@.subrange(0, 4));
            assert(out@ =~= spec_ical_dt_to_iso(val@)) by {
                reveal_strlit("-");
            }
        }
        chars_to_string(&out)
    } else {
        let mut s = String::new();
        s.append(val);
        s
    }
}

fn push_range_of(src: &Vec<char>, a: usize, b: usize, out: &mut Vec<char>)
    requires
        a <= b <= src@.len(),
    ensures
        final(out)@ == old(out)@ + src@.subrange(a as int, b as int),
{
    let mut k: usize = a;
    proof {
        assert(out@ =~= old(out)@ + src@.subrange(a as int, a as int));
    }
    while k < b
        invariant
            a <= k <= b <= src@.len(),
            out@ == old(out)@ + src@.subrange(a as int, k as int),
        decreases b - k,
    {
        out.push(src[k]);
        proof {
            assert(src@.subrange(a as int, k as int + 1) =~= src@.subrange(a as int, k as int).push(
                src@[k as int],
            ));
        }
        k = k + 1;
    }
}


/// The attendee view used by the line-parser specifications.
#[verifier::ext_equal]
pub struct AttendeeV {
    pub email: Seq<char>,
    pub name: Option<Seq<char>>,
    pub role: Seq<char>,
    pub status: Seq<char>,
    pub rsvp: bool,
}

pub open spec fn spec_attendee_v(a: EventAttendee) -> AttendeeV {
    AttendeeV {
        email: a.email@,
        name: match a.name {
            Some(n) => Some(n@),
            None => None,
        },
        role: a.role@,
        status: a.status@,
        rsvp: a.rsvp,
    }
}

/// The capture of a `KEY=` parameter: the text after the first occurrence of
/// the key, up to the next `;` or `:`; an empty capture counts as absent.
pub open spec fn spec_param_capture(line: Seq<char>, key: Seq<char>) -> Option<Seq<char>> {
    match spec_find_sub(line, key) {
        None => None,
        Some(p) => {
            let rest = line.skip(p + key.len());
            let upto = match spec_find(rest, ';') {
                Some(a) => (match spec_find(rest, ':') {
                    Some(b) => if a < b {
                        a
                    } else {
                        b
                    },
                    None => a,
                }),
                None => (match spec_find(rest, ':') {
                    Some(b) => b,
                    None => rest.len() as int,
                }),
            };
            if upto > 0 {
                Some(rest.take(upto))
            } else {
                None
            }
        },
    }
}

fn find_char_vec(v: &Vec<char>, c: char) -> (r: Option<usize>)
    ensures
        match r {
            Some(i) => crate::textutil::spec_find(v@, c) == Some(i as int) && i < v@.len(),
            None => crate::textutil::spec_find(v@, c) is None,
        },
{
    crate::textutil::find_char(v, c)
}

/// Extracts a `KEY=` parameter capture from an attendee line.
fn param_capture(line: &Vec<char>, key: &Vec<char>) -> (r: Option<Vec<char>>)
    ensures
        match r {
            Some(v) => spec_param_capture(line@, key@) == Some(v@),
            None => spec_param_capture(line@, key@) is None,
        },
{
    let n = line.len();
    match crate::textutil::find_sub(line, key) {
        None => None,
        Some(p) => {
            let rest = chars_skip(line, p + key.len());
            proof {
                assert(rest@ == line@.skip(p + key@.len()));
            }
            let fa = find_char_vec(&rest, ';');
            let fb = find_char_vec(&rest, ':');
            let upto: usize = match (fa, fb) {
                (Some(a), Some(b)) => if a < b {
                    a
                } else {
                    b
                },
                (Some(a), None) => a,
                (None, Some(b)) => b,
                (None, None) => rest.len(),
            };
            if upto > 0 {
                let cap = copy_prefix_chars(&rest, upto);
                Some(cap)
            } else {
                None
            }
        },
    }
}

fn copy_prefix_chars(v: &Vec<char>, upto: usize) -> (r: Vec<char>)
    requires
        upto <= v@.len(),
    ensures
        r@ == v@.take(upto as int),
{
    let mut out: Vec<char> = Vec::new();
    let mut k: usize = 0;
    while k < upto
        invariant
            k <= upto <= v@.len(),
            out@ == v@.take(k as int),
        decreases upto - k,
    {
        out.push(v[k]);
        proof {
            assert(v@.take(k as int + 1) =~= v@.take(k as int).push(v@[k as int]));
        }
        k = k + 1;
    }
    out
}

/// How an `ORGANIZER` or `ATTENDEE` line reads: the address after `mailto:`
/// (matched case-insensitively), the `CN=`, `ROLE=` and `PARTSTAT=`
/// parameters with their defaults, and the `RSVP=TRUE` flag.
pub open spec fn spec_parse_attendee(line: Seq<char>, is_organizer: bool) -> Option<AttendeeV> {
    let low = spec_lower_seq(line);
    match spec_find_sub(low, "mailto:"@) {
        None => None,
        Some(p) => Some(
            AttendeeV {
                email: spec_trim(line.skip(p + 7)),
                name: match spec_param_capture(line, "CN="@) {
                    Some(c) => Some(spec_unescape_ical(c)),
                    None => None,
                },
                role: match spec_param_capture(line, "ROLE="@) {
                    Some(c) => c,
                    None => if is_organizer {
                        "CHAIR"@
                    } else {
                        "REQ-PARTICIPANT"@
                    },
                },
                status: match spec_param_capture(line, "PARTSTAT="@) {
                    Some(c) => c,
                    None => "NEEDS-ACTION"@,
                },
                rsvp: spec_contains_seq(low, "rsvp=true"@),
            },
        ),
    }
}

/// Parses an `ORGANIZER` or `ATTENDEE` line.
pub fn parse_attendee_line(line: &Vec<char>, is_organizer: bool) -> (r: Option<EventAttendee>)
    ensures
        match r {
            Some(a) => spec_parse_attendee(line@, is_organizer) == Some(spec_attendee_v(a)),
            None => spec_parse_attendee(line@, is_organizer) is None,
        },
{
    let low = crate::textutil::lower_chars(line);
    let mailto = str_to_chars("mailto:");
    let pos = match crate::textutil::find_sub(&low, &mailto) {
        None => {
            return None;
        },
        Some(p) => p,
    };
    let n = line.len();
    proof {
        reveal_strlit("mailto:");
        assert(low@.len() == line@.len());
        assert(pos + 7 <= n);
    }
    let after = chars_skip(line, pos + 7);
    let email_chars = trim_chars(&after);
    let email = chars_to_string(&email_chars);
    let name = match param_capture(line, &str_to_chars("CN=")) {
        Some(c) => {
            let cs = chars_to_string(&c);
            Some(unescape_icalendar(cs.as_str()))
        },
        None => None,
    };
    let role = match param_capture(line, &str_to_chars("ROLE=")) {
        Some(c) => chars_to_string(&c),
        None => if is_organizer {
            "CHAIR".to_owned()
        } else {
            "REQ-PARTICIPANT".to_owned()
        },
    };
    let status = match param_capture(line, &str_to_chars("PARTSTAT=")) {
        Some(c) => chars_to_string(&c),
        None => "NEEDS-ACTION".to_owned(),
    };
    let rsvp = contains_seq(&low, &str_to_chars("rsvp=true"));
    Some(EventAttendee { email, name, role, status, rsvp })
}

/// How a `DTSTART`/`DTEND`/`DUE` line reads: the value after the last `:`,
/// reshaped into ISO 8601; the second component says whether it was a bare
/// date (`VALUE=DATE`).
pub open spec fn spec_parse_dt(line: Seq<char>) -> (Seq<char>, bool) {
    let date_only = spec_contains_seq(line, "VALUE=DATE"@) && !spec_contains_seq(
        line,
        "VALUE=DATE-TIME"@,
    );
    let parts = spec_split(line, ':');
    let v = spec_trim(parts.last());
    if date_only {
        if v.len() >= 8 {
            (v.take(4) + "-"@ + v.subrange(4, 6) + "-"@ + v.subrange(6, 8), true)
        } else {
            (v, false)
        }
    } else {
        if v.len() >= 15 {
            (
                v.take(4) + "-"@ + v.subrange(4, 6) + "-"@ + v.subrange(6, 8) + "T"@ + v.subrange(
                    9,
                    11,
                ) + ":"@ + v.subrange(11, 13) + ":"@ + v.subrange(13, 15) + (if v.last() == 'Z' {
                    "Z"@
                } else {
                    Seq::<char>::empty()
                }),
                false,
            )
        } else {
            (v, false)
        }
    }
}

/// Parses a `DTSTART`/`DTEND`/`DUE` line into an ISO date string and the
/// bare-date flag.
#[verifier::rlimit(100)]
pub fn parse_dt_line(line: &Vec<char>) -> (r: (String, bool))
    ensures
        r.0@ == spec_parse_dt(line@).0,
        r.1 == spec_parse_dt(line@).1,
{
    let date_only = contains_seq(line, &str_to_chars("VALUE=DATE")) && !contains_seq(
        line,
        &str_to_chars("VALUE=DATE-TIME"),
    );
    let parts = split_chars(line, ':');
    proof {
        crate::textutil::lemma_split_len(line@, ':');
        assert(parts@.map_values(|p: Vec<char>| p@).len() == parts@.len());
        assert(parts@.map_values(|p: Vec<char>| p@).last() == parts@[parts@.len() - 1]@);
    }
    let last = &parts[parts.len() - 1];
    let v = trim_chars(last);
    proof {
        assert(v@ == spec_trim(spec_split(line@, ':').last()));
    }
    if date_only {
        if v.len() >= 8 {
            let mut out: Vec<char> = Vec::new();
            push_range_of(&v, 0, 4, &mut out);
            out.push('-');
            push_range_of(&v, 4, 6, &mut out);
            out.push('-');
            push_range_of(&v, 6, 8, &mut out);
            proof {
                assert(v@.take(4) =~= v@.subrange(0, 4));
                assert(out@ =~= spec_parse_dt(line@).0) by {
                    reveal_strlit("-");
                }
            }
            (chars_to_string(&out), true)
        } else {
            (chars_to_string(&v), false)
        }
    } else {
        if v.len() >= 15 {
            let is_utc = v[v.len() - 1] == 'Z';
            let mut out: Vec<char> = Vec::new();
            push_range_of(&v, 0, 4, &mut out);
            out.push('-');
            push_range_of(&v, 4, 6, &mut out);
            out.push('-');
            push_range_of(&v, 6, 8, &mut out);
            out.push('T');
            push_range_of(&v, 9, 11, &mut out);
            out.push(':');
            push_range_of(&v, 11, 13, &mut out);
            out.push(':');
            push_range_of(&v, 13, 15, &mut out);
            if is_utc {
                out.push('Z');
            }
            proof {
                assert(v@.take(4) =~= v@.subrange(0, 4));
                assert(out@ =~= spec_parse_dt(line@).0) by {
                    reveal_strlit("-");
                    reveal_strlit("T");
                    reveal_strlit(":");
                    reveal_strlit("Z");
                }
            }
            (chars_to_string(&out), false)
        } else {
            (chars_to_string(&v), false)
        }
    }
}


/// The event fields accumulated while scanning VEVENT lines.
#[verifier::ext_equal]
pub struct EventStateV {
    pub uid: Seq<char>,
    pub summary: Seq<char>,
    pub description: Option<Seq<char>>,
    pub location: Option<Seq<char>>,
    pub dtstart: Seq<char>,
    pub dtend: Seq<char>,
    pub all_day: bool,
    pub rrule: Option<Seq<char>>,
    pub organizer: Option<AttendeeV>,
    pub attendees: Seq<AttendeeV>,
    pub in_vevent: bool,
    pub done: bool,
}

pub open spec fn spec_event_init() -> EventStateV {
    EventStateV {
        uid: Seq::empty(),
        summary: Seq::empty(),
        description: None,
        location: None,
        dtstart: Seq::empty(),
        dtend: Seq::empty(),
        all_day: false,
        rrule: None,
        organizer: None,
        attendees: Seq::empty(),
        in_vevent: false,
        done: false,
    }
}

/// One VEVENT line applied to the state.
pub open spec fn spec_event_line(st: EventStateV, raw: Seq<char>) -> EventStateV {
    let t = spec_trim(raw);
    if st.done {
        st
    } else if t == "BEGIN:VEVENT"@ {
        EventStateV { in_vevent: true, ..st }
    } else if t == "END:VEVENT"@ {
        EventStateV { done: true, ..st }
    } else if !st.in_vevent {
        st
    } else if spec_starts_with(t, "UID:"@) {
        EventStateV { uid: t.skip(4), ..st }
    } else if spec_starts_with(t, "SUMMARY:"@) {
        EventStateV { summary: spec_unescape_ical(spec_trim(t.skip(8))), ..st }
    } else if spec_starts_with(t, "DESCRIPTION:"@) {
        EventStateV { description: Some(spec_unescape_ical(spec_trim(t.skip(12)))), ..st }
    } else if spec_starts_with(t, "LOCATION:"@) {
        EventStateV { location: Some(spec_unescape_ical(spec_trim(t.skip(9)))), ..st }
    } else if spec_starts_with(t, "DTSTART"@) {
        let p = spec_parse_dt(t);
        EventStateV { dtstart: p.0, all_day: st.all_day || p.1, ..st }
    } else if spec_starts_with(t, "DTEND"@) {
        EventStateV { dtend: spec_parse_dt(t).0, ..st }
    } else if spec_starts_with(t, "RRULE:"@) {
        EventStateV { rrule: Some(t.skip(6)), ..st }
    } else if spec_starts_with(t, "ORGANIZER"@) {
        EventStateV { organizer: spec_parse_attendee(t, true), ..st }
    } else if spec_starts_with(t, "ATTENDEE"@) {
        match spec_parse_attendee(t, false) {
            Some(a) => EventStateV { attendees: st.attendees.push(a), ..st },
            None => st,
        }
    } else {
        st
    }
}

pub open spec fn spec_event_fold(lines: Seq<Seq<char>>) -> EventStateV
    decreases lines.len(),
{
    if lines.len() == 0 {
        spec_event_init()
    } else {
        spec_event_line(spec_event_fold(lines.drop_last()), lines.last())
    }
}

/// What `parse_icalendar` returns: the folded fields, provided a UID and a
/// summary were seen; a missing DTEND falls back to DTSTART.
pub open spec fn spec_event_result(ics: Seq<char>) -> Option<EventStateV> {
    let st = spec_event_fold(spec_split(ics, '\n'));
    if st.uid.len() == 0 || st.summary.len() == 0 {
        None
    } else if st.dtend.len() == 0 {
        Some(EventStateV { dtend: st.dtstart, ..st })
    } else {
        Some(st)
    }
}

pub open spec fn spec_event_matches(e: CalendarEvent, st: EventStateV, calendar_id: Seq<char>)
    -> bool {
    &&& e.id@ == st.uid
    &&& e.calendar_id@ == calendar_id
    &&& e.summary@ == st.summary
    &&& (match (e.description, st.description) {
        (Some(a), Some(b)) => a@ == b,
        (None, None) => true,
        _ => false,
    })
    &&& (match (e.location, st.location) {
        (Some(a), Some(b)) => a@ == b,
        (None, None) => true,
        _ => false,
    })
    &&& e.start@ == st.dtstart
    &&& e.end@ == st.dtend
    &&& e.all_day == st.all_day
    &&& (match (e.recurrence_rule, st.rrule) {
        (Some(a), Some(b)) => a@ == b,
        (None, None) => true,
        _ => false,
    })
    &&& e.color is None
    &&& (match (e.organizer, st.organizer) {
        (Some(a), Some(b)) => spec_attendee_v(a) == b,
        (None, None) => true,
        _ => false,
    })
    &&& e.attendees@.map_values(|a: EventAttendee| spec_attendee_v(a)) == st.attendees
}

/// Parses one VEVENT out of iCalendar text; `None` without a UID and summary.
#[verifier::rlimit(100)]
pub fn parse_icalendar(ics_data: &str, calendar_id: &str) -> (r: Option<CalendarEvent>)
    ensures
        match r {
            Some(e) => spec_event_result(ics_data@) matches Some(st) && spec_event_matches(
                e,
                st,
                calendar_id@,
            ),
            None => spec_event_result(ics_data@) is None,
        },
{
    let chars = str_to_chars(ics_data);
    let lines = split_chars(&chars, '\n');
    let ghost lviews = lines@.map_values(|p: Vec<char>| p@);

    let mut uid: Vec<char> = Vec::new();
    let mut summary = String::new();
    let mut description: Option<String> = None;
    let mut location: Option<String> = None;
    let mut dtstart = String::new();
    let mut dtend = String::new();
    let mut all_day = false;
    let mut rrule: Option<Vec<char>> = None;
    let mut organizer: Option<EventAttendee> = None;
    let mut attendees: Vec<EventAttendee> = Vec::new();
    let mut in_vevent = false;
    let mut done = false;

    let mut i: usize = 0;
    proof {
        assert(lviews.take(0) =~= Seq::<Seq<char>>::empty());
        assert(spec_event_state(
            uid@,
            summary@,
            description,
            location,
            dtstart@,
            dtend@,
            all_day,
            rrule,
            organizer,
            attendees@,
            in_vevent,
            done,
        ) =~~= spec_event_fold(lviews.take(0)));
    }
    while i < lines.len()
        invariant
            i <= lines@.len(),
            lviews == lines@.map_values(|p: Vec<char>| p@),
            spec_event_state(
                uid@,
                summary@,
                description,
                location,
                dtstart@,
                dtend@,
                all_day,
                rrule,
                organizer,
                attendees@,
                in_vevent,
                done,
            ) == spec_event_fold(lviews.take(i as int)),
        decreases lines@.len() - i,
    {
        let ghost st_pre = spec_event_fold(lviews.take(i as int));
        proof {
            assert(lviews.take(i as int + 1).drop_last() =~= lviews.take(i as int));
            assert(lviews.take(i as int + 1).last() == lviews[i as int]);
            assert(lviews[i as int] == lines@[i as int]@);
            reveal_strlit("UID:");
            reveal_strlit("SUMMARY:");
            reveal_strlit("DESCRIPTION:");
            reveal_strlit("LOCATION:");
            reveal_strlit("RRULE:");
        }
        let t = trim_chars(&lines[i]);
        let ts = chars_to_string(&t);
        if done {
        } else if crate::textutil::str_eq(ts.as_str(), "BEGIN:VEVENT") {
            in_vevent = true;
        } else if crate::textutil::str_eq(ts.as_str(), "END:VEVENT") {
            done = true;
        } else if !in_vevent {
        } else if starts_with_chars(&t, &str_to_chars("UID:")) {
            uid = chars_skip(&t, 4);
        } else if starts_with_chars(&t, &str_to_chars("SUMMARY:")) {
            let rest = chars_skip(&t, 8);
            let trimmed = trim_chars(&rest);
            let tstr = chars_to_string(&trimmed);
            summary = unescape_icalendar(tstr.as_str());
        } else if starts_with_chars(&t, &str_to_chars("DESCRIPTION:")) {
            let rest = chars_skip(&t, 12);
            let trimmed = trim_chars(&rest);
            let tstr = chars_to_string(&trimmed);
            description = Some(unescape_icalendar(tstr.as_str()));
        } else if starts_with_chars(&t, &str_to_chars("LOCATION:")) {
            let rest = chars_skip(&t, 9);
            let trimmed = trim_chars(&rest);
            let tstr = chars_to_string(&trimmed);
            location = Some(unescape_icalendar(tstr.as_str()));
        } else if starts_with_chars(&t, &str_to_chars("DTSTART")) {
            let p = parse_dt_line(&t);
            dtstart = p.0;
            if p.1 {
                all_day = true;
            }
        } else if starts_with_chars(&t, &str_to_chars("DTEND")) {
            let p = parse_dt_line(&t);
            dtend = p.0;
        } else if starts_with_chars(&t, &str_to_chars("RRULE:")) {
            rrule = Some(chars_skip(&t, 6));
        } else if starts_with_chars(&t, &str_to_chars("ORGANIZER")) {
            organizer = parse_attendee_line(&t, true);
        } else if starts_with_chars(&t, &str_to_chars("ATTENDEE")) {
            match parse_attendee_line(&t, false) {
                Some(a) => {
                    attendees.push(a);
                    proof {
                        assert(attendees@.map_values(|a: EventAttendee| spec_attendee_v(a))
                            =~= attendees@.take(attendees@.len() - 1).map_values(
                            |a: EventAttendee| spec_attendee_v(a),
                        ).push(spec_attendee_v(attendees@.last())));
                    }
                },
                None => {},
            }
        }
        proof {
            assert(spec_event_state(
                uid@,
                summary@,
                description,
                location,
                dtstart@,
                dtend@,
                all_day,
                rrule,
                organizer,
                attendees@,
                in_vevent,
                done,
            ) =~~= spec_event_line(st_pre, lviews[i as int]));
        }
        i = i + 1;
    }
    proof {
        assert(lviews.take(i as int) =~= lviews);
    }
    if uid.len() == 0 || summary.as_str().unicode_len() == 0 {
        return None;
    }
    let final_end = if dtend.as_str().unicode_len() == 0 {
        let mut copy = String::new();
        copy.append(dtstart.as_str());
        copy
    } else {
        dtend
    };
    Some(
        CalendarEvent {
            id: chars_to_string(&uid),
            calendar_id: calendar_id.to_owned(),
            summary,
            description,
            location,
            start: dtstart,
            end: final_end,
            all_day,
            recurrence_rule: match rrule {
                Some(v) => Some(chars_to_string(&v)),
                None => None,
            },
            color: None,
            organizer,
            attendees,
        },
    )
}

/// The exec state bundled back into the view the fold speaks of.
pub open spec fn spec_event_state(
    uid: Seq<char>,
    summary: Seq<char>,
    description: Option<String>,
    location: Option<String>,
    dtstart: Seq<char>,
    dtend: Seq<char>,
    all_day: bool,
    rrule: Option<Vec<char>>,
    organizer: Option<EventAttendee>,
    attendees: Seq<EventAttendee>,
    in_vevent: bool,
    done: bool,
) -> EventStateV {
    EventStateV {
        uid,
        summary,
        description: match description {
            Some(d) => Some(d@),
            None => None,
        },
        location: match location {
            Some(l) => Some(l@),
            None => None,
        },
        dtstart,
        dtend,
        all_day,
        rrule: match rrule {
            Some(v) => Some(v@),
            None => None,
        },
        organizer: match organizer {
            Some(a) => Some(spec_attendee_v(a)),
            None => None,
        },
        attendees: attendees.map_values(|a: EventAttendee| spec_attendee_v(a)),
        in_vevent,
        done,
    }
}


/// The task fields accumulated while scanning VTODO lines.
#[verifier::ext_equal]
pub struct TaskStateV {
    pub uid: Seq<char>,
    pub summary: Seq<char>,
    pub description: Option<Seq<char>>,
    pub status: Option<Seq<char>>,
    pub completed: bool,
    pub percent_complete: Option<u8>,
    pub priority: Option<u8>,
    pub due: Option<Seq<char>>,
    pub created: Option<Seq<char>>,
    pub last_modified: Option<Seq<char>>,
    pub in_vtodo: bool,
    pub done: bool,
}

pub open spec fn spec_task_init() -> TaskStateV {
    TaskStateV {
        uid: Seq::empty(),
        summary: Seq::empty(),
        description: None,
        status: None,
        completed: false,
        percent_complete: None,
        priority: None,
        due: None,
        created: None,
        last_modified: None,
        in_vtodo: false,
        done: false,
    }
}

/// ASCII uppercase, character by character.
pub open spec fn spec_upper_seq(s: Seq<char>) -> Seq<char> {
    s.map_values(
        |c: char|
            {
                let u = c as u32;
                if 97 <= u <= 122 {
                    ((u - 32) as u32) as char
                } else {
                    c
                }
            },
    )
}

pub fn upper_chars(v: &Vec<char>) -> (r: Vec<char>)
    ensures
        r@ == spec_upper_seq(v@),
{
    let mut out: Vec<char> = Vec::new();
    let mut i: usize = 0;
    proof {
        assert(out@ =~= spec_upper_seq(v@.take(0)));
    }
    while i < v.len()
        invariant
            i <= v@.len(),
            out@ == spec_upper_seq(v@.take(i as int)),
        decreases v@.len() - i,
    {
        let c = v[i];
        let u = c as u32;
        if 97 <= u && u <= 122 {
            out.push(((u - 32) as u8) as char);
        } else {
            out.push(c);
        }
        proof {
            assert(spec_upper_seq(v@.take(i as int + 1)) =~= spec_upper_seq(v@.take(i as int)).push(
                {
                    let u = (v@[i as int]) as u32;
                    if 97 <= u <= 122 {
                        ((u - 32) as u32) as char
                    } else {
                        v@[i as int]
                    }
                },
            ));
        }
        i = i + 1;
    }
    proof {
        assert(v@.take(i as int) =~= v@);
    }
    out
}

/// A number line value read as a small count, when it fits in a byte.
pub open spec fn spec_u8_of(s: Seq<char>) -> Option<u8> {
    match crate::textutil::spec_parse_u32(s) {
        Some(v) => if v <= 255 {
            Some(v as u8)
        } else {
            None
        },
        None => None,
    }
}

fn parse_u8_chars(v: &Vec<char>) -> (r: Option<u8>)
    ensures
        r == spec_u8_of(v@),
{
    match crate::textutil::parse_u32_chars(v.as_slice()) {
        Some(x) => if x <= 255 {
            Some(x as u8)
        } else {
            None
        },
        None => None,
    }
}

/// One VTODO line applied to the state.
pub open spec fn spec_task_line(st: TaskStateV, raw: Seq<char>) -> TaskStateV {
    let t = spec_trim(raw);
    if st.done {
        st
    } else if t == "BEGIN:VTODO"@ {
        TaskStateV { in_vtodo: true, ..st }
    } else if t == "END:VTODO"@ {
        TaskStateV { done: true, ..st }
    } else if !st.in_vtodo {
        st
    } else if spec_starts_with(t, "UID:"@) {
        TaskStateV { uid: t.skip(4), ..st }
    } else if spec_starts_with(t, "SUMMARY:"@) {
        TaskStateV { summary: spec_unescape_ical(spec_trim(t.skip(8))), ..st }
    } else if spec_starts_with(t, "DESCRIPTION:"@) {
        TaskStateV { description: Some(spec_unescape_ical(spec_trim(t.skip(12)))), ..st }
    } else if spec_starts_with(t, "STATUS:"@) {
        let s = spec_upper_seq(spec_trim(t.skip(7)));
        TaskStateV { completed: s == "COMPLETED"@, status: Some(s), ..st }
    } else if spec_starts_with(t, "PERCENT-COMPLETE:"@) {
        match spec_u8_of(spec_trim(t.skip(17))) {
            Some(p) => TaskStateV {
                percent_complete: Some(p),
                completed: st.completed || p == 100,
                ..st
            },
            None => st,
        }
    } else if spec_starts_with(t, "PRIORITY:"@) {
        match spec_u8_of(spec_trim(t.skip(9))) {
            Some(p) => TaskStateV { priority: Some(p), ..st },
            None => st,
        }
    } else if spec_starts_with(t, "DUE"@) {
        let v = spec_parse_dt(t).0;
        if v.len() > 0 {
            TaskStateV { due: Some(v), ..st }
        } else {
            st
        }
    } else if spec_starts_with(t, "CREATED:"@) {
        let v = spec_trim(t.skip(8));
        if v.len() >= 8 {
            TaskStateV { created: Some(spec_ical_dt_to_iso(v)), ..st }
        } else {
            st
        }
    } else if spec_starts_with(t, "LAST-MODIFIED:"@) {
        let v = spec_trim(t.skip(14));
        if v.len() >= 8 {
            TaskStateV { last_modified: Some(spec_ical_dt_to_iso(v)), ..st }
        } else {
            st
        }
    } else if spec_starts_with(t, "COMPLETED:"@) {
        TaskStateV { completed: true, ..st }
    } else {
        st
    }
}

pub open spec fn spec_task_fold(lines: Seq<Seq<char>>) -> TaskStateV
    decreases lines.len(),
{
    if lines.len() == 0 {
        spec_task_init()
    } else {
        spec_task_line(spec_task_fold(lines.drop_last()), lines.last())
    }
}

/// What `parse_vtodo` returns: the folded fields, provided a UID was seen;
/// an untitled task reads `Untitled Task`.
pub open spec fn spec_task_result(ics: Seq<char>) -> Option<TaskStateV> {
    let st = spec_task_fold(spec_split(ics, '\n'));
    if st.uid.len() == 0 {
        None
    } else if st.summary.len() == 0 {
        Some(TaskStateV { summary: "Untitled Task"@, ..st })
    } else {
        Some(st)
    }
}

pub open spec fn spec_task_matches(e: CalDavTask, st: TaskStateV, calendar_id: Seq<char>) -> bool {
    &&& e.id@ == st.uid
    &&& e.calendar_id@ == calendar_id
    &&& e.summary@ == st.summary
    &&& (match (e.description, st.description) {
        (Some(a), Some(b)) => a@ == b,
        (None, None) => true,
        _ => false,
    })
    &&& e.completed == st.completed
    &&& e.percent_complete == st.percent_complete
    &&& e.priority == st.priority
    &&& (match (e.due, st.due) {
        (Some(a), Some(b)) => a@ == b,
        (None, None) => true,
        _ => false,
    })
    &&& (match (e.created, st.created) {
        (Some(a), Some(b)) => a@ == b,
        (None, None) => true,
        _ => false,
    })
    &&& (match (e.last_modified, st.last_modified) {
        (Some(a), Some(b)) => a@ == b,
        (None, None) => true,
        _ => false,
    })
    &&& (match (e.status, st.status) {
        (Some(a), Some(b)) => a@ == b,
        (None, None) => true,
        _ => false,
    })
}

pub open spec fn spec_task_state(
    uid: Seq<char>,
    summary: Seq<char>,
    description: Option<String>,
    status: Option<String>,
    completed: bool,
    percent_complete: Option<u8>,
    priority: Option<u8>,
    due: Option<String>,
    created: Option<String>,
    last_modified: Option<String>,
    in_vtodo: bool,
    done: bool,
) -> TaskStateV {
    TaskStateV {
        uid,
        summary,
        description: match description {
            Some(d) => Some(d@),
            None => None,
        },
        status: match status {
            Some(sv) => Some(sv@),
            None => None,
        },
        completed,
        percent_complete,
        priority,
        due: match due {
            Some(d) => Some(d@),
            None => None,
        },
        created: match created {
            Some(c) => Some(c@),
            None => None,
        },
        last_modified: match last_modified {
            Some(m) => Some(m@),
            None => None,
        },
        in_vtodo,
        done,
    }
}

/// Parses one VTODO out of iCalendar text; `None` without a UID.
#[verifier::rlimit(100)]
pub fn parse_vtodo(ics_data: &str, calendar_id: &str) -> (r: Option<CalDavTask>)
    ensures
        match r {
            Some(e) => spec_task_result(ics_data@) matches Some(st) && spec_task_matches(
                e,
                st,
                calendar_id@,
            ),
            None => spec_task_result(ics_data@) is None,
        },
{
    let chars = str_to_chars(ics_data);
    let lines = split_chars(&chars, '\n');
    let ghost lviews = lines@.map_values(|p: Vec<char>| p@);

    let mut uid: Vec<char> = Vec::new();
    let mut summary = String::new();
    let mut description: Option<String> = None;
    let mut status: Option<String> = None;
    let mut completed = false;
    let mut percent_complete: Option<u8> = None;
    let mut priority: Option<u8> = None;
    let mut due: Option<String> = None;
    let mut created: Option<String> = None;
    let mut last_modified: Option<String> = None;
    let mut in_vtodo = false;
    let mut done = false;

    let mut i: usize = 0;
    proof {
        assert(lviews.take(0) =~= Seq::<Seq<char>>::empty());
        assert(spec_task_state(
            uid@,
            summary@,
            description,
            status,
            completed,
            percent_complete,
            priority,
            due,
            created,
            last_modified,
            in_vtodo,
            done,
        ) =~~= spec_task_fold(lviews.take(0)));
    }
    while i < lines.len()
        invariant
            i <= lines@.len(),
            lviews == lines@.map_values(|p: Vec<char>| p@),
            spec_task_state(
                uid@,
                summary@,
                description,
                status,
                completed,
                percent_complete,
                priority,
                due,
                created,
                last_modified,
                in_vtodo,
                done,
            ) == spec_task_fold(lviews.take(i as int)),
        decreases lines@.len() - i,
    {
        let ghost st_pre = spec_task_fold(lviews.take(i as int));
        proof {
            assert(lviews.take(i as int + 1).drop_last() =~= lviews.take(i as int));
            assert(lviews.take(i as int + 1).last() == lviews[i as int]);
            assert(lviews[i as int] == lines@[i as int]@);
            reveal_strlit("UID:");
            reveal_strlit("SUMMARY:");
            reveal_strlit("DESCRIPTION:");
            reveal_strlit("STATUS:");
            reveal_strlit("PERCENT-COMPLETE:");
            reveal_strlit("PRIORITY:");
            reveal_strlit("CREATED:");
            reveal_strlit("LAST-MODIFIED:");
        }
        let t = trim_chars(&lines[i]);
        let ts = chars_to_string(&t);
        if done {
        } else if crate::textutil::str_eq(ts.as_str(), "BEGIN:VTODO") {
            in_vtodo = true;
        } else if crate::textutil::str_eq(ts.as_str(), "END:VTODO") {
            done = true;
        } else if !in_vtodo {
        } else if starts_with_chars(&t, &str_to_chars("UID:")) {
            uid = chars_skip(&t, 4);
        } else if starts_with_chars(&t, &str_to_chars("SUMMARY:")) {
            let rest = chars_skip(&t, 8);
            let trimmed = trim_chars(&rest);
            let tstr = chars_to_string(&trimmed);
            summary = unescape_icalendar(tstr.as_str());
        } else if starts_with_chars(&t, &str_to_chars("DESCRIPTION:")) {
            let rest = chars_skip(&t, 12);
            let trimmed = trim_chars(&rest);
            let tstr = chars_to_string(&trimmed);
            description = Some(unescape_icalendar(tstr.as_str()));
        } else if starts_with_chars(&t, &str_to_chars("STATUS:")) {
            let rest = chars_skip(&t, 7);
            let trimmed = trim_chars(&rest);
            let up = upper_chars(&trimmed);
            let upstr = chars_to_string(&up);
            completed = crate::textutil::str_eq(upstr.as_str(), "COMPLETED");
            status = Some(upstr);
        } else if starts_with_chars(&t, &str_to_chars("PERCENT-COMPLETE:")) {
            let rest = chars_skip(&t, 17);
            let trimmed = trim_chars(&rest);
            match parse_u8_chars(&trimmed) {
                Some(p) => {
                    percent_complete = Some(p);
                    if p == 100 {
                        completed = true;
                    }
                },
                None => {},
            }
        } else if starts_with_chars(&t, &str_to_chars("PRIORITY:")) {
            let rest = chars_skip(&t, 9);
            let trimmed = trim_chars(&rest);
            match parse_u8_chars(&trimmed) {
                Some(p) => {
                    priority = Some(p);
                },
                None => {},
            }
        } else if starts_with_chars(&t, &str_to_chars("DUE")) {
            let p = parse_dt_line(&t);
            if p.0.as_str().unicode_len() > 0 {
                due = Some(p.0);
            }
        } else if starts_with_chars(&t, &str_to_chars("CREATED:")) {
            let rest = chars_skip(&t, 8);
            let trimmed = trim_chars(&rest);
            if trimmed.len() >= 8 {
                let tstr = chars_to_string(&trimmed);
                created = Some(parse_icalendar_dt_to_iso(tstr.as_str()));
            }
        } else if starts_with_chars(&t, &str_to_chars("LAST-MODIFIED:")) {
            let rest = chars_skip(&t, 14);
            let trimmed = trim_chars(&rest);
            if trimmed.len() >= 8 {
                let tstr = chars_to_string(&trimmed);
                last_modified = Some(parse_icalendar_dt_to_iso(tstr.as_str()));
            }
        } else if starts_with_chars(&t, &str_to_chars("COMPLETED:")) {
            completed = true;
        }
        proof {
            assert(spec_task_state(
                uid@,
                summary@,
                description,
                status,
                completed,
                percent_complete,
                priority,
                due,
                created,
                last_modified,
                in_vtodo,
                done,
            ) =~~= spec_task_line(st_pre, lviews[i as int]));
        }
        i = i + 1;
    }
    proof {
        assert(lviews.take(i as int) =~= lviews);
    }
    if uid.len() == 0 {
        return None;
    }
    let final_summary = if summary.as_str().unicode_len() == 0 {
        "Untitled Task".to_owned()
    } else {
        summary
    };
    Some(
        CalDavTask {
            id: chars_to_string(&uid),
            calendar_id: calendar_id.to_owned(),
            summary: final_summary,
            description,
            completed,
            percent_complete,
            priority,
            due,
            created,
            last_modified,
            status,
        },
    )
}

fn chars_take(v: &Vec<char>, upto: usize) -> (r: Vec<char>)
    requires
        upto <= v@.len(),
    ensures
        r@ == v@.take(upto as int),
{
    let mut out: Vec<char> = Vec::new();
    let mut k: usize = 0;
    while k < upto
        invariant
            k <= upto <= v@.len(),
            out@ == v@.take(k as int),
        decreases upto - k,
    {
        out.push(v[k]);
        proof {
            assert(v@.take(k as int + 1) =~= v@.take(k as int).push(v@[k as int]));
        }
        k = k + 1;
    }
    out
}

/// The date part of an all-day stamp: dashes dropped, anything from `T` on
/// cut.
pub open spec fn spec_ical_date_only(s: Seq<char>) -> Seq<char> {
    let dashless = spec_replace_all(s, "-"@, Seq::empty());
    match spec_find(dashless, 'T') {
        Some(k) => dashless.take(k),
        None => dashless,
    }
}

fn ical_date_only(s: &str) -> (r: String)
    ensures
        r@ == spec_ical_date_only(s@),
{
    let chars = str_to_chars(s);
    let dash = str_to_chars("-");
    let empty: Vec<char> = Vec::new();
    proof {
        reveal_strlit("-");
    }
    let dashless = replace_all(&chars, &dash, &empty);
    proof {
        assert(empty@ =~= Seq::<char>::empty());
    }
    match find_char(&dashless, 'T') {
        Some(k) => chars_to_string(&chars_take(&dashless, k)),
        None => chars_to_string(&dashless),
    }
}

/// The DTSTART line: a bare date for an all-day event, the compact
/// date-time otherwise.
pub open spec fn spec_dtstart_line(event: CalendarEvent) -> Seq<char> {
    if event.all_day {
        "DTSTART;VALUE=DATE:"@ + spec_ical_date_only(event.start@) + "\r\n"@
    } else {
        "DTSTART:"@ + spec_iso_to_ical_dt(event.start@) + "\r\n"@
    }
}

pub open spec fn spec_dtend_line(event: CalendarEvent) -> Seq<char> {
    if event.all_day {
        "DTEND;VALUE=DATE:"@ + spec_ical_date_only(event.end@) + "\r\n"@
    } else {
        "DTEND:"@ + spec_iso_to_ical_dt(event.end@) + "\r\n"@
    }
}

pub open spec fn spec_cn_part(name: Option<String>) -> Seq<char> {
    match name {
        Some(n) => ";CN="@ + spec_escape_ical(n@),
        None => Seq::empty(),
    }
}

/// One attendee on the wire, with role, participation status, optional
/// display name and RSVP wish.
pub open spec fn spec_attendee_line(a: EventAttendee) -> Seq<char> {
    "ATTENDEE;ROLE="@ + a.role@ + ";PARTSTAT="@ + a.status@ + spec_cn_part(a.name) + (
    if a.rsvp {
        ";RSVP=TRUE"@
    } else {
        Seq::empty()
    }) + ":mailto:"@ + a.email@ + "\r\n"@
}

pub open spec fn spec_attendee_lines(atts: Seq<EventAttendee>) -> Seq<char>
    decreases atts.len(),
{
    if atts.len() == 0 {
        Seq::empty()
    } else {
        spec_attendee_lines(atts.drop_last()) + spec_attendee_line(atts.last())
    }
}

pub open spec fn spec_organizer_line(org: Option<EventAttendee>) -> Seq<char> {
    match org {
        Some(o) => "ORGANIZER"@ + spec_cn_part(o.name) + ":mailto:"@ + o.email@ + "\r\n"@,
        None => Seq::empty(),
    }
}

/// An optional escaped text property: written only when present and
/// nonempty.
pub open spec fn spec_opt_text_line(label: Seq<char>, v: Option<String>) -> Seq<char> {
    match v {
        Some(t) => if t@.len() > 0 {
            label + spec_escape_ical(t@) + "\r\n"@
        } else {
            Seq::empty()
        },
        None => Seq::empty(),
    }
}

/// The calendar body uploaded when an event is created or updated: the
/// VCALENDAR envelope, the stamped VEVENT, its dates, escaped text
/// properties, recurrence rule, organizer and attendees, in this order.
pub open spec fn spec_event_ics(event: CalendarEvent, now: Seq<char>) -> Seq<char> {
    "BEGIN:VCALENDAR\r\n"@ + "VERSION:2.0\r\n"@ + "PRODID:-//MailClient//CalDAV Client//EN\r\n"@
        + "METHOD:REQUEST\r\n"@ + "BEGIN:VEVENT\r\n"@ + "UID:"@ + event.id@ + "\r\n"@
        + "DTSTAMP:"@ + now + "\r\n"@ + spec_dtstart_line(event) + spec_dtend_line(event)
        + "SUMMARY:"@ + spec_escape_ical(event.summary@) + "\r\n"@ + spec_opt_text_line(
        "DESCRIPTION:"@,
        event.description,
    ) + spec_opt_text_line("LOCATION:"@, event.location) + (match event.recurrence_rule {
        Some(rr) => if rr@.len() > 0 {
            "RRULE:"@ + rr@ + "\r\n"@
        } else {
            Seq::empty()
        },
        None => Seq::empty(),
    }) + spec_organizer_line(event.organizer) + spec_attendee_lines(event.attendees@)
        + "END:VEVENT\r\n"@ + "END:VCALENDAR\r\n"@
}

fn dtstart_line(event: &CalendarEvent) -> (r: String)
    ensures
        r@ == spec_dtstart_line(*event),
{
    let mut out = String::new();
    if event.all_day {
        out.append("DTSTART;VALUE=DATE:");
        let d = ical_date_only(event.start.as_str());
        out.append(d.as_str());
    } else {
        out.append("DTSTART:");
        let d = iso_to_icalendar_dt(event.start.as_str());
        out.append(d.as_str());
    }
    out.append("\r\n");
    proof {
        assert(out@ =~= spec_dtstart_line(*event));
    }
    out
}

fn dtend_line(event: &CalendarEvent) -> (r: String)
    ensures
        r@ == spec_dtend_line(*event),
{
    let mut out = String::new();
    if event.all_day {
        out.append("DTEND;VALUE=DATE:");
        let d = ical_date_only(event.end.as_str());
        out.append(d.as_str());
    } else {
        out.append("DTEND:");
        let d = iso_to_icalendar_dt(event.end.as_str());
        out.append(d.as_str());
    }
    out.append("\r\n");
    proof {
        assert(out@ =~= spec_dtend_line(*event));
    }
    out
}

fn opt_text_line(label: &str, v: &Option<String>) -> (r: String)
    ensures
        r@ == spec_opt_text_line(label@, *v),
{
    let mut out = String::new();
    match v {
        Some(t) => if t.as_str().unicode_len() > 0 {
            out.append(label);
            let e = escape_icalendar(t.as_str());
            out.append(e.as_str());
            out.append("\r\n");
        },
        None => {},
    }
    proof {
        assert(out@ =~= spec_opt_text_line(label@, *v));
    }
    out
}

fn cn_part(name: &Option<String>) -> (r: String)
    ensures
        r@ == spec_cn_part(*name),
{
    let mut out = String::new();
    match name {
        Some(n) => {
            out.append(";CN=");
            let e = escape_icalendar(n.as_str());
            out.append(e.as_str());
        },
        None => {},
    }
    proof {
        assert(out@ =~= spec_cn_part(*name));
    }
    out
}

fn attendee_line(a: &EventAttendee) -> (r: String)
    ensures
        r@ == spec_attendee_line(*a),
{
    let mut out = String::new();
    out.append("ATTENDEE;ROLE=");
    out.append(a.role.as_str());
    out.append(";PARTSTAT=");
    out.append(a.status.as_str());
    let cn = cn_part(&a.name);
    out.append(cn.as_str());
    if a.rsvp {
        out.append(";RSVP=TRUE");
    }
    out.append(":mailto:");
    out.append(a.email.as_str());
    out.append("\r\n");
    proof {
        assert(out@ =~= spec_attendee_line(*a));
    }
    out
}

fn organizer_line(org: &Option<EventAttendee>) -> (r: String)
    ensures
        r@ == spec_organizer_line(*org),
{
    let mut out = String::new();
    match org {
        Some(o) => {
            out.append("ORGANIZER");
            let cn = cn_part(&o.name);
            out.append(cn.as_str());
            out.append(":mailto:");
            out.append(o.email.as_str());
            out.append("\r\n");
        },
        None => {},
    }
    proof {
        assert(out@ =~= spec_organizer_line(*org));
    }
    out
}

fn rrule_line(rrule: &Option<String>) -> (r: String)
    ensures
        r@ == (match *rrule {
            Some(rr) => if rr@.len() > 0 {
                "RRULE:"@ + rr@ + "\r\n"@
            } else {
                Seq::empty()
            },
            None => Seq::empty(),
        }),
{
    let mut out = String::new();
    match rrule {
        Some(rr) => if rr.as_str().unicode_len() > 0 {
            out.append("RRULE:");
            out.append(rr.as_str());
            out.append("\r\n");
        },
        None => {},
    }
    proof {
        assert(out@ =~= (match *rrule {
            Some(rr) => if rr@.len() > 0 {
                "RRULE:"@ + rr@ + "\r\n"@
            } else {
                Seq::<char>::empty()
            },
            None => Seq::<char>::empty(),
        }));
    }
    out
}

fn attendees_block(atts: &Vec<EventAttendee>) -> (r: String)
    ensures
        r@ == spec_attendee_lines(atts@),
{
    let mut out = String::new();
    let mut i: usize = 0;
    proof {
        assert(out@ =~= spec_attendee_lines(atts@.take(0)));
    }
    while i < atts.len()
        invariant
            i <= atts@.len(),
            out@ == spec_attendee_lines(atts@.take(i as int)),
        decreases atts@.len() - i,
    {
        let line = attendee_line(&atts[i]);
        out.append(line.as_str());
        proof {
            assert(atts@.take(i as int + 1).drop_last() =~= atts@.take(i as int));
            assert(atts@.take(i as int + 1).last() == atts@[i as int]);
            assert(out@ =~= spec_attendee_lines(atts@.take(i as int + 1)));
        }
        i = i + 1;
    }
    proof {
        assert(atts@.take(i as int) =~= atts@);
    }
    out
}

/// Writes the event emitter's inverse of the VEVENT parser: the upload body
/// for a create or update, from the event and the caller's formatted clock
/// stamp.
#[verifier::rlimit(100)]
pub fn event_to_icalendar(event: &CalendarEvent, now_stamp: &str) -> (r: String)
    ensures
        r@ == spec_event_ics(*event, now_stamp@),
{
    let mut ics = String::new();
    ics.append("BEGIN:VCALENDAR\r\n");
    ics.append("VERSION:2.0\r\n");
    ics.append("PRODID:-//MailClient//CalDAV Client//EN\r\n");
    ics.append("METHOD:REQUEST\r\n");
    ics.append("BEGIN:VEVENT\r\n");
    ics.append("UID:");
    ics.append(event.id.as_str());
    ics.append("\r\n");
    ics.append("DTSTAMP:");
    ics.append(now_stamp);
    ics.append("\r\n");
    let ds = dtstart_line(event);
    ics.append(ds.as_str());
    let de = dtend_line(event);
    ics.append(de.as_str());
    ics.append("SUMMARY:");
    let esc_summary = escape_icalendar(event.summary.as_str());
    ics.append(esc_summary.as_str());
    ics.append("\r\n");
    let desc = opt_text_line("DESCRIPTION:", &event.description);
    ics.append(desc.as_str());
    let loc = opt_text_line("LOCATION:", &event.location);
    ics.append(loc.as_str());
    let rr = rrule_line(&event.recurrence_rule);
    ics.append(rr.as_str());
    let org = organizer_line(&event.organizer);
    ics.append(org.as_str());
    let atts = attendees_block(&event.attendees);
    ics.append(atts.as_str());
    ics.append("END:VEVENT\r\n");
    ics.append("END:VCALENDAR\r\n");
    proof {
        assert(ics@ =~= spec_event_ics(*event, now_stamp@));
    }
    ics
}

/// The DUE line of a task: a compact date-time when the stamp carries a
/// time, a bare dashless date otherwise; empty stamps write nothing.
pub open spec fn spec_due_line(due: Option<String>) -> Seq<char> {
    match due {
        Some(d) => if d@.len() == 0 {
            Seq::empty()
        } else if spec_find(d@, 'T') is Some {
            "DUE:"@ + spec_iso_to_ical_dt(d@) + "\r\n"@
        } else {
            "DUE;VALUE=DATE:"@ + spec_replace_all(d@, "-"@, Seq::empty()) + "\r\n"@
        },
        None => Seq::empty(),
    }
}

/// The calendar body uploaded when a task is created or updated: the
/// VCALENDAR envelope, the stamped VTODO, its creation and modification
/// stamps, the optional description, due date and priority, and the
/// completion block.
pub open spec fn spec_task_ics(task: CalDavTask, now: Seq<char>) -> Seq<char> {
    "BEGIN:VCALENDAR\r\n"@ + "VERSION:2.0\r\n"@ + "PRODID:-//MailClient//CalDAV Client//EN\r\n"@
        + "BEGIN:VTODO\r\n"@ + "UID:"@ + task.id@ + "\r\n"@ + "DTSTAMP:"@ + now + "\r\n"@
        + "SUMMARY:"@ + spec_escape_ical(task.summary@) + "\r\n"@ + "CREATED:"@ + (
    match task.created {
        Some(c) => spec_iso_to_ical_dt(c@),
        None => now,
    }) + "\r\n"@ + "LAST-MODIFIED:"@ + now + "\r\n"@ + spec_opt_text_line(
        "DESCRIPTION:"@,
        task.description,
    ) + spec_due_line(task.due) + (match task.priority {
        Some(p) => "PRIORITY:"@ + spec_u64_digits(p as int) + "\r\n"@,
        None => Seq::empty(),
    }) + (if task.completed {
        "STATUS:COMPLETED\r\n"@ + "PERCENT-COMPLETE:100\r\n"@ + "COMPLETED:"@ + now + "\r\n"@
    } else {
        "STATUS:NEEDS-ACTION\r\n"@ + (match task.percent_complete {
            Some(pc) => "PERCENT-COMPLETE:"@ + spec_u64_digits(pc as int) + "\r\n"@,
            None => Seq::empty(),
        })
    }) + "END:VTODO\r\n"@ + "END:VCALENDAR\r\n"@
}

fn created_value(created: &Option<String>, now_stamp: &str) -> (r: String)
    ensures
        r@ == (match *created {
            Some(c) => spec_iso_to_ical_dt(c@),
            None => now_stamp@,
        }),
{
    match created {
        Some(c) => iso_to_icalendar_dt(c.as_str()),
        None => {
            let mut out = String::new();
            out.append(now_stamp);
            out
        },
    }
}

fn due_line(due: &Option<String>) -> (r: String)
    ensures
        r@ == spec_due_line(*due),
{
    let mut out = String::new();
    match due {
        Some(d) => if d.as_str().unicode_len() > 0 {
            let chars = str_to_chars(d.as_str());
            if find_char(&chars, 'T').is_some() {
                out.append("DUE:");
                let v = iso_to_icalendar_dt(d.as_str());
                out.append(v.as_str());
                out.append("\r\n");
            } else {
                out.append("DUE;VALUE=DATE:");
                let dash = str_to_chars("-");
                let empty: Vec<char> = Vec::new();
                proof {
                    reveal_strlit("-");
                    assert(empty@ =~= Seq::<char>::empty());
                }
                let dashless = replace_all(&chars, &dash, &empty);
                let v = chars_to_string(&dashless);
                out.append(v.as_str());
                out.append("\r\n");
            }
        },
        None => {},
    }
    proof {
        assert(out@ =~= spec_due_line(*due));
    }
    out
}

fn priority_line(priority: Option<u8>) -> (r: String)
    ensures
        r@ == (match priority {
            Some(p) => "PRIORITY:"@ + spec_u64_digits(p as int) + "\r\n"@,
            None => Seq::empty(),
        }),
{
    let mut out = String::new();
    match priority {
        Some(p) => {
            out.append("PRIORITY:");
            let mut dv: Vec<char> = Vec::new();
            push_u64_digits(p as u64, &mut dv);
            proof {
                assert(dv@ =~= spec_u64_digits(p as int));
            }
            let v = chars_to_string(&dv);
            out.append(v.as_str());
            out.append("\r\n");
        },
        None => {},
    }
    proof {
        assert(out@ =~= (match priority {
            Some(p) => "PRIORITY:"@ + spec_u64_digits(p as int) + "\r\n"@,
            None => Seq::<char>::empty(),
        }));
    }
    out
}

fn completion_block(completed: bool, percent_complete: Option<u8>, now_stamp: &str) -> (r:
    String)
    ensures
        r@ == (if completed {
            "STATUS:COMPLETED\r\n"@ + "PERCENT-COMPLETE:100\r\n"@ + "COMPLETED:"@ + now_stamp@
                + "\r\n"@
        } else {
            "STATUS:NEEDS-ACTION\r\n"@ + (match percent_complete {
                Some(pc) => "PERCENT-COMPLETE:"@ + spec_u64_digits(pc as int) + "\r\n"@,
                None => Seq::empty(),
            })
        }),
{
    let mut out = String::new();
    if completed {
        out.append("STATUS:COMPLETED\r\n");
        out.append("PERCENT-COMPLETE:100\r\n");
        out.append("COMPLETED:");
        out.append(now_stamp);
        out.append("\r\n");
    } else {
        out.append("STATUS:NEEDS-ACTION\r\n");
        match percent_complete {
            Some(pc) => {
                out.append("PERCENT-COMPLETE:");
                let mut dv: Vec<char> = Vec::new();
                push_u64_digits(pc as u64, &mut dv);
                proof {
                    assert(dv@ =~= spec_u64_digits(pc as int));
                }
                let v = chars_to_string(&dv);
                out.append(v.as_str());
                out.append("\r\n");
            },
            None => {},
        }
    }
    proof {
        assert(out@ =~= (if completed {
            "STATUS:COMPLETED\r\n"@ + "PERCENT-COMPLETE:100\r\n"@ + "COMPLETED:"@ + now_stamp@
                + "\r\n"@
        } else {
            "STATUS:NEEDS-ACTION\r\n"@ + (match percent_complete {
                Some(pc) => "PERCENT-COMPLETE:"@ + spec_u64_digits(pc as int) + "\r\n"@,
                None => Seq::<char>::empty(),
            })
        }));
    }
    out
}

/// Writes the task emitter's inverse of the VTODO parser: the upload body
/// for a create or update, from the task and the caller's formatted clock
/// stamp.
#[verifier::rlimit(100)]
pub fn task_to_icalendar(task: &CalDavTask, now_stamp: &str) -> (r: String)
    ensures
        r@ == spec_task_ics(*task, now_stamp@),
{
    let mut ics = String::new();
    ics.append("BEGIN:VCALENDAR\r\n");
    ics.append("VERSION:2.0\r\n");
    ics.append("PRODID:-//MailClient//CalDAV Client//EN\r\n");
    ics.append("BEGIN:VTODO\r\n");
    ics.append("UID:");
    ics.append(task.id.as_str());
    ics.append("\r\n");
    ics.append("DTSTAMP:");
    ics.append(now_stamp);
    ics.append("\r\n");
    ics.append("SUMMARY:");
    let esc_summary = escape_icalendar(task.summary.as_str());
    ics.append(esc_summary.as_str());
    ics.append("\r\n");
    ics.append("CREATED:");
    let created = created_value(&task.created, now_stamp);
    ics.append(created.as_str());
    ics.append("\r\n");
    ics.append("LAST-MODIFIED:");
    ics.append(now_stamp);
    ics.append("\r\n");
    let desc = opt_text_line("DESCRIPTION:", &task.description);
    ics.append(desc.as_str());
    let due = due_line(&task.due);
    ics.append(due.as_str());
    let prio = priority_line(task.priority);
    ics.append(prio.as_str());
    let done = completion_block(task.completed, task.percent_complete, now_stamp);
    ics.append(done.as_str());
    ics.append("END:VTODO\r\n");
    ics.append("END:VCALENDAR\r\n");
    proof {
        assert(ics@ =~= spec_task_ics(*task, now_stamp@));
    }
    ics
}

} // verus!
