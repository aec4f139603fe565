//! JMAP-side data types and the pure session computations: well-known URL
//! trimming, API-URL resolution against the post-redirect location, the
//! trusted-host list, and primary-account and identity selection.

use vstd::prelude::*;

use crate::textutil::{
    after_last_char, chars_to_string, join_strings, spec_after_last, spec_join_sep,
    spec_starts_with, starts_with_chars, str_eq, str_to_chars,
};

verus! {

/// A JMAP account's connection settings.
#[derive(Clone, Debug)]
pub struct JmapAccount {
    pub jmap_url: String,
    pub username: String,
    pub password: String,
    pub display_name: String,
}

/// A mailbox with its server-assigned id, role and counters.
#[derive(Clone, Debug)]
pub struct JmapMailbox {
    pub id: String,
    pub name: String,
    pub parent_id: Option<String>,
    pub role: Option<String>,
    pub total_emails: u32,
    pub unread_emails: u32,
    pub sort_order: u32,
}

/// A message summary as listed in a mailbox.
#[derive(Clone, Debug)]
pub struct JmapEmailHeader {
    pub id: String,
    pub blob_id: String,
    pub thread_id: String,
    pub mailbox_ids: Vec<String>,
    pub subject: String,
    pub from: String,
    pub to: String,
    pub date: String,
    pub is_read: bool,
    pub is_flagged: bool,
    pub is_answered: bool,
    pub is_draft: bool,
    pub has_attachments: bool,
    pub size: u64,
    pub preview: String,
}

/// A fully fetched message.
#[derive(Clone, Debug)]
pub struct JmapEmail {
    pub id: String,
    pub blob_id: String,
    pub thread_id: String,
    pub mailbox_ids: Vec<String>,
    pub subject: String,
    pub from: String,
    pub to: String,
    pub cc: String,
    pub bcc: String,
    pub date: String,
    pub body_text: String,
    pub body_html: String,
    pub attachments: Vec<JmapAttachment>,
    pub is_read: bool,
    pub is_flagged: bool,
    pub is_answered: bool,
    pub is_draft: bool,
    pub size: u64,
}

/// An attachment addressed by blob id.
#[derive(Clone, Debug)]
pub struct JmapAttachment {
    pub blob_id: String,
    pub name: String,
    pub mime_type: String,
    pub size: u64,
}

/// A message to submit.
#[derive(Clone, Debug)]
pub struct JmapOutgoingEmail {
    pub to: Vec<String>,
    pub cc: Option<Vec<String>>,
    pub bcc: Option<Vec<String>>,
    pub subject: String,
    pub body_text: String,
    pub body_html: Option<String>,
    pub in_reply_to: Option<String>,
    pub references: Option<String>,
}

/// A Sieve script as stored on a JMAP server.
#[derive(Clone, Debug)]
pub struct JmapSieveScript {
    pub id: String,
    pub name: String,
    pub is_active: bool,
    pub blob_id: Option<String>,
}

/// A Sieve script summary for the UI.
#[derive(Clone, Debug)]
pub struct JmapSieveScriptInfo {
    pub id: String,
    pub name: String,
    pub is_active: bool,
}

/// A connected JMAP account as reported to the UI.
#[derive(Clone, Debug)]
pub struct JmapConnectedAccount {
    pub id: String,
    pub email: String,
    pub display_name: String,
}

/// Diagnostic data for a JMAP connection attempt.
#[derive(Clone, Debug)]
pub struct JmapDebugInfo {
    pub session_url: String,
    pub api_url: Option<String>,
    pub account_id: Option<String>,
    pub error: Option<String>,
}

/// A connected account as reported to the UI.
#[derive(Clone, Debug)]
pub struct ConnectedAccount {
    pub id: String,
    pub email: String,
    pub display_name: String,
}

pub open spec fn spec_strip_suffix(s: Seq<char>, suf: Seq<char>) -> Seq<char> {
    if suf.len() <= s.len() && s.subrange(s.len() - suf.len(), s.len() as int) == suf {
        s.take(s.len() - suf.len())
    } else {
        s
    }
}

fn copy_prefix(v: &Vec<char>, upto: usize) -> (r: Vec<char>)
    requires
        upto <= v@.len(),
    ensures
        r@ == v@.take(upto as int),
{
    let mut out: Vec<char> = Vec::new();
    let mut k: usize = 0;
    while k < upto
        invariant
            k <= upto <= v@.len(),
            out@ == v@.take(k as int),
        decreases upto - k,
    {
        out.push(v[k]);
        proof {
            assert(v@.take(k as int + 1) =~= v@.take(k as int).push(v@[k as int]));
        }
        k = k + 1;
    }
    out
}

fn strip_suffix_once(v: &Vec<char>, suf: &Vec<char>) -> (r: Vec<char>)
    ensures
        r@ == spec_strip_suffix(v@, suf@),
{
    if suf.len() > v.len() {
        let r = copy_prefix(v, v.len());
        proof {
            assert(v@.take(v@.len() as int) =~= v@);
        }
        return r;
    }
    let start = v.len() - suf.len();
    if crate::textutil::match_at(v, suf, start) {
        proof {
            assert(v@.subrange(start as int, start + suf@.len()) =~= v@.subrange(
                v@.len() - suf@.len(),
                v@.len() as int,
            ));
        }
        copy_prefix(v, start)
    } else {
        let r = copy_prefix(v, v.len());
        proof {
            assert(v@.take(v@.len() as int) =~= v@);
            assert(v@.subrange(start as int, start + suf@.len()) =~= v@.subrange(
                v@.len() - suf@.len(),
                v@.len() as int,
            ));
        }
        r
    }
}

/// The session base URL: a trailing `/`, then a trailing `/.well-known/jmap`
/// or `.well-known/jmap`, stripped in that order.
pub open spec fn spec_session_base(url: Seq<char>) -> Seq<char> {
    spec_strip_suffix(
        spec_strip_suffix(spec_strip_suffix(url, "/"@), "/.well-known/jmap"@),
        ".well-known/jmap"@,
    )
}

/// Strips the well-known discovery path from a configured JMAP URL.
pub fn session_base_url(url: &str) -> (r: String)
    ensures
        r@ == spec_session_base(url@),
{
    let chars = str_to_chars(url);
    let s1 = strip_suffix_once(&chars, &str_to_chars("/"));
    let s2 = strip_suffix_once(&s1, &str_to_chars("/.well-known/jmap"));
    let s3 = strip_suffix_once(&s2, &str_to_chars(".well-known/jmap"));
    crate::textutil::chars_to_string(&s3)
}

/// How a session `apiUrl` resolves: absolute URLs stand, a leading `/` joins
/// the final origin, anything else hangs off the final URL.
pub open spec fn spec_resolve_api_url(
    api_url: Seq<char>,
    final_scheme_host: Seq<char>,
    final_url: Seq<char>,
) -> Seq<char> {
    if spec_starts_with(api_url, "http://"@) || spec_starts_with(api_url, "https://"@) {
        api_url
    } else if api_url.len() >= 1 && api_url[0] == '/' {
        final_scheme_host + api_url
    } else {
        spec_strip_suffix(final_url, "/"@) + "/"@ + api_url
    }
}

/// Resolves a possibly relative `apiUrl` against the final session URL.
/// `final_scheme_host` is `scheme://host[:port]` of the URL the session was
/// actually served from, after redirects.
pub fn resolve_api_url(api_url: &str, final_scheme_host: &str, final_url: &str) -> (r: String)
    ensures
        r@ == spec_resolve_api_url(api_url@, final_scheme_host@, final_url@),
{
    let chars = str_to_chars(api_url);
    let http = str_to_chars("http://");
    let https = str_to_chars("https://");
    if starts_with_chars(&chars, &http) || starts_with_chars(&chars, &https) {
        let mut out = String::new();
        out.append(api_url);
        return out;
    }
    if chars.len() >= 1 && chars[0] == '/' {
        let mut out = String::new();
        out.append(final_scheme_host);
        out.append(api_url);
        return out;
    }
    let fchars = str_to_chars(final_url);
    let stripped = strip_suffix_once(&fchars, &str_to_chars("/"));
    let mut out = crate::textutil::chars_to_string(&stripped);
    out.append("/");
    out.append(api_url);
    proof {
        assert(out@ =~= spec_strip_suffix(final_url@, "/"@) + "/"@ + api_url@);
    }
    out
}

/// Adds a host to the trusted redirect list if it is not yet there.
pub fn add_trusted_host(hosts: &mut Vec<String>, host: &str)
    ensures
        (exists|i: int| 0 <= i < old(hosts)@.len() && (#[trigger] old(hosts)@[i])@ == host@)
            ==> final(hosts)@ == old(hosts)@,
        !(exists|i: int| 0 <= i < old(hosts)@.len() && (#[trigger] old(hosts)@[i])@ == host@) ==> ({
            &&& final(hosts)@.len() == old(hosts)@.len() + 1
            &&& final(hosts)@.take(old(hosts)@.len() as int) == old(hosts)@
            &&& final(hosts)@.last()@ == host@
        }),
{
    let mut i: usize = 0;
    while i < hosts.len()
        invariant
            i <= hosts@.len(),
            hosts@ == old(hosts)@,
            forall|k: int| 0 <= k < i ==> (#[trigger] hosts@[k])@ != host@,
        decreases hosts@.len() - i,
    {
        if str_eq(hosts[i].as_str(), host) {
            return ;
        }
        i = i + 1;
    }
    hosts.push(host.to_owned());
    proof {
        assert(final(hosts)@.take(old(hosts)@.len() as int) =~= old(hosts)@);
    }
}

/// Picks the primary mail account: the id under the mail capability when
/// present, else the first listed account.
pub fn primary_account_id(
    primary_mail: Option<String>,
    first_account: Option<String>,
) -> (r: Option<String>)
    ensures
        primary_mail is Some ==> r == primary_mail,
        primary_mail is None ==> r == first_account,
{
    match primary_mail {
        Some(id) => Some(id),
        None => first_account,
    }
}

/// Picks the sending identity: the one whose address matches the account's
/// username, else the first.
pub fn select_identity(identities: &Vec<(String, String)>, username: &str) -> (r: Option<String>)
    ensures
        r is None <==> identities@.len() == 0,
        (exists|i: int|
            0 <= i < identities@.len() && ((#[trigger] identities@[i]).1)@ == username@) ==> (
        r matches Some(id) && exists|i: int|
            0 <= i < identities@.len() && ((#[trigger] identities@[i]).1)@ == username@ && id@
                == identities@[i].0@),
{
    let mut i: usize = 0;
    while i < identities.len()
        invariant
            i <= identities@.len(),
            forall|k: int| 0 <= k < i ==> ((#[trigger] identities@[k]).1)@ != username@,
        decreases identities@.len() - i,
    {
        if str_eq(identities[i].1.as_str(), username) {
            let id = identities[i].0.clone();
            proof {
                assert(((identities@[i as int]).1)@ == username@);
            }
            return Some(id);
        }
        i = i + 1;
    }
    if identities.len() > 0 {
        Some(identities[0].0.clone())
    } else {
        None
    }
}

/// The registry key of a JMAP account: the username behind a `jmap_` prefix.
pub fn jmap_account_key(username: &str) -> (r: String)
    ensures
        r@ == "jmap_"@ + username@,
{
    let mut out = String::new();
    out.append("jmap_");
    out.append(username);
    out
}

/// Whether a registry key names a JMAP account.
pub fn is_jmap_account_key(account_id: &str) -> (r: bool)
    ensures
        r == spec_starts_with(account_id@, "jmap_"@),
{
    let chars = str_to_chars(account_id);
    starts_with_chars(&chars, &str_to_chars("jmap_"))
}


/// Whether a keyword list carries the given keyword.
pub open spec fn spec_has_keyword(keywords: Seq<String>, kw: Seq<char>) -> bool {
    exists|i: int| 0 <= i < keywords.len() && (#[trigger] keywords[i])@ == kw
}

fn has_keyword(keywords: &Vec<String>, kw: &str) -> (r: bool)
    ensures
        r == spec_has_keyword(keywords@, kw@),
{
    let mut i: usize = 0;
    while i < keywords.len()
        invariant
            i <= keywords@.len(),
            forall|k: int| 0 <= k < i ==> (#[trigger] keywords@[k])@ != kw@,
        decreases keywords@.len() - i,
    {
        if str_eq(keywords[i].as_str(), kw) {
            proof {
                assert(keywords@[i as int]@ == kw@);
            }
            return true;
        }
        i = i + 1;
    }
    false
}

/// Maps JMAP keywords to the four flag slots: `$seen`, `$flagged`,
/// `$answered` and `$draft` each set exactly their slot.
pub fn flags_from_keywords(keywords: &Vec<String>) -> (r: (bool, bool, bool, bool))
    ensures
        r.0 == spec_has_keyword(keywords@, "$seen"@),
        r.1 == spec_has_keyword(keywords@, "$flagged"@),
        r.2 == spec_has_keyword(keywords@, "$answered"@),
        r.3 == spec_has_keyword(keywords@, "$draft"@),
{
    (
        has_keyword(keywords, "$seen"),
        has_keyword(keywords, "$flagged"),
        has_keyword(keywords, "$answered"),
        has_keyword(keywords, "$draft"),
    )
}

/// Maps the four flag slots back to their JMAP keywords, in the fixed order
/// seen, flagged, answered, draft.
pub fn keywords_from_flags(is_read: bool, is_flagged: bool, is_answered: bool, is_draft: bool)
    -> (r: Vec<String>)
    ensures
        r@.map_values(|k: String| k@) == (if is_read {
            seq!["$seen"@]
        } else {
            Seq::<Seq<char>>::empty()
        }) + (if is_flagged {
            seq!["$flagged"@]
        } else {
            Seq::empty()
        }) + (if is_answered {
            seq!["$answered"@]
        } else {
            Seq::empty()
        }) + (if is_draft {
            seq!["$draft"@]
        } else {
            Seq::empty()
        }),
{
    let mut r: Vec<String> = Vec::new();
    if is_read {
        r.push("$seen".to_owned());
    }
    if is_flagged {
        r.push("$flagged".to_owned());
    }
    if is_answered {
        r.push("$answered".to_owned());
    }
    if is_draft {
        r.push("$draft".to_owned());
    }
    proof {
        assert(r@.map_values(|k: String| k@) =~= (if is_read {
            seq!["$seen"@]
        } else {
            Seq::<Seq<char>>::empty()
        }) + (if is_flagged {
            seq!["$flagged"@]
        } else {
            Seq::empty()
        }) + (if is_answered {
            seq!["$answered"@]
        } else {
            Seq::empty()
        }) + (if is_draft {
            seq!["$draft"@]
        } else {
            Seq::empty()
        }));
    }
    r
}

/// The page of ids a mail listing shows: `limit` entries starting at
/// `position`, clamped to the list.
pub fn page_slice(ids: &Vec<String>, position: u32, limit: u32) -> (r: Vec<String>)
    ensures
        r@.map_values(|s: String| s@) == ({
            let n = ids@.len() as int;
            let lo = if position as int <= n {
                position as int
            } else {
                n
            };
            let hi = if position as int + limit as int <= n {
                position as int + limit as int
            } else {
                n
            };
            ids@.subrange(lo, hi).map_values(|s: String| s@)
        }),
{
    let n = ids.len();
    let lo: usize = if (position as usize) <= n {
        position as usize
    } else {
        n
    };
    let hi: usize = if limit as usize <= n - lo {
        lo + limit as usize
    } else {
        n
    };
    let mut out: Vec<String> = Vec::new();
    let mut k: usize = lo;
    proof {
        assert(out@ =~= ids@.subrange(lo as int, lo as int));
    }
    while k < hi
        invariant
            lo <= k <= hi <= ids@.len(),
            out@ == ids@.subrange(lo as int, k as int),
        decreases hi - k,
    {
        out.push(ids[k].clone());
        proof {
            assert(out@ =~= ids@.subrange(lo as int, k as int + 1));
        }
        k = k + 1;
    }
    proof {
        let n_ = ids@.len() as int;
        let lo_ = if position as int <= n_ {
            position as int
        } else {
            n_
        };
        let hi_ = if position as int + limit as int <= n_ {
            position as int + limit as int
        } else {
            n_
        };
        assert(lo as int == lo_);
        assert(hi as int == hi_);
    }
    out
}

/// The blob-upload endpoint for a Sieve script: every `/jmap` path segment of
/// the API URL gains `/upload/{accountId}`.
pub fn sieve_upload_url(api_url: &str, account_id: &str) -> (r: String)
    ensures
        r@ == crate::textutil::spec_replace_all(
            api_url@,
            "/jmap"@,
            "/jmap/upload/"@ + account_id@,
        ),
{
    let chars = str_to_chars(api_url);
    let pat = str_to_chars("/jmap");
    let mut rep = str_to_chars("/jmap/upload/");
    let idc = str_to_chars(account_id);
    let mut k: usize = 0;
    let ghost base = rep@;
    while k < idc.len()
        invariant
            k <= idc@.len(),
            rep@ == base + idc@.take(k as int),
        decreases idc@.len() - k,
    {
        rep.push(idc[k]);
        proof {
            assert(idc@.take(k as int + 1) =~= idc@.take(k as int).push(idc@[k as int]));
        }
        k = k + 1;
    }
    proof {
        assert(idc@.take(k as int) =~= idc@);
        assert(rep@ =~= "/jmap/upload/"@ + account_id@);
    }
    let out = crate::textutil::replace_all(&chars, &pat, &rep);
    chars_to_string(&out)
}

/// How a Sieve set call is shaped: a script with no id is created, one with
/// an id is updated, and activation names the written script or clears the
/// active one.
#[derive(Clone, Debug)]
pub struct SieveSetCall {
    pub is_create: bool,
    pub existing_id: Option<String>,
    pub activate_written: bool,
}

/// Decides the Sieve set-call shape from the known script id and the
/// activation wish (the `onSuccessActivateScript` argument follows from it).
pub fn sieve_set_call(existing_id: Option<String>, activate: bool) -> (r: SieveSetCall)
    ensures
        r.is_create == (existing_id is None),
        r.existing_id == existing_id,
        r.activate_written == activate,
{
    SieveSetCall { is_create: existing_id.is_none(), existing_id, activate_written: activate }
}

/// The domain used in a generated Message-ID: the part of the sending
/// address after its last `@`, or the whole address when it has none.
pub fn address_domain(username: &str) -> (r: String)
    ensures
        r@ == spec_after_last(username@, '@'),
{
    let chars = str_to_chars(username);
    let tail = after_last_char(&chars, '@');
    chars_to_string(&tail)
}

/// The body section of an outgoing message: a two-part
/// `multipart/alternative` when an HTML body is present, a bare plain-text
/// part otherwise.
pub open spec fn spec_rfc5322_body(text: Seq<char>, html: Option<String>) -> Seq<char> {
    match html {
        Some(h) => "MIME-Version: 1.0\r\n"@
            + "Content-Type: multipart/alternative; boundary=\"boundary-alternative\"\r\n"@
            + "\r\n"@ + "--boundary-alternative\r\n"@ + "Content-Type: text/plain; charset=utf-8\r\n"@
            + "\r\n"@ + text + "\r\n--boundary-alternative\r\n"@
            + "Content-Type: text/html; charset=utf-8\r\n"@ + "\r\n"@ + h@
            + "\r\n--boundary-alternative--\r\n"@,
        None => "Content-Type: text/plain; charset=utf-8\r\n"@ + "\r\n"@ + text,
    }
}

/// The whole outgoing message: From, To, an optional Cc, Subject, Date and
/// Message-ID headers, the optional reply-threading headers, then the body
/// section.
pub open spec fn spec_rfc5322_message(
    email: JmapOutgoingEmail,
    from_name: Seq<char>,
    from_addr: Seq<char>,
    date: Seq<char>,
    msg_id: Seq<char>,
    domain: Seq<char>,
) -> Seq<char> {
    "From: "@ + from_name + " <"@ + from_addr + ">\r\n"@ + "To: "@ + spec_join_sep(
        email.to@.map_values(|s: String| s@),
        ", "@,
    ) + "\r\n"@ + (match email.cc {
        Some(c) => if c@.len() > 0 {
            "Cc: "@ + spec_join_sep(c@.map_values(|s: String| s@), ", "@) + "\r\n"@
        } else {
            Seq::empty()
        },
        None => Seq::empty(),
    }) + "Subject: "@ + email.subject@ + "\r\n"@ + "Date: "@ + date + "\r\n"@
        + "Message-ID: <"@ + msg_id + "@"@ + domain + ">\r\n"@ + (match email.in_reply_to {
        Some(r) => "In-Reply-To: "@ + r@ + "\r\n"@,
        None => Seq::empty(),
    }) + (match email.references {
        Some(r) => "References: "@ + r@ + "\r\n"@,
        None => Seq::empty(),
    }) + spec_rfc5322_body(email.body_text@, email.body_html)
}

/// Writes the raw message handed to `Email/import` and the submission: the
/// caller supplies the formatted date and the fresh message-id token, and
/// every header and boundary is pinned by the message spec.
#[verifier::rlimit(100)]
pub fn build_rfc5322_message(
    email: &JmapOutgoingEmail,
    from_name: &str,
    from_addr: &str,
    date: &str,
    msg_id: &str,
    domain: &str,
) -> (r: String)
    ensures
        r@ == spec_rfc5322_message(*email, from_name@, from_addr@, date@, msg_id@, domain@),
{
    let mut m = String::new();
    m.append("From: ");
    m.append(from_name);
    m.append(" <");
    m.append(from_addr);
    m.append(">\r\n");
    m.append("To: ");
    let to_joined = join_strings(&email.to, ", ");
    m.append(to_joined.as_str());
    m.append("\r\n");
    match &email.cc {
        Some(c) => {
            if c.len() > 0 {
                m.append("Cc: ");
                let cc_joined = join_strings(c, ", ");
                m.append(cc_joined.as_str());
                m.append("\r\n");
            }
        },
        None => {},
    }
    m.append("Subject: ");
    m.append(email.subject.as_str());
    m.append("\r\n");
    m.append("Date: ");
    m.append(date);
    m.append("\r\n");
    m.append("Message-ID: <");
    m.append(msg_id);
    m.append("@");
    m.append(domain);
    m.append(">\r\n");
    match &email.in_reply_to {
        Some(r) => {
            m.append("In-Reply-To: ");
            m.append(r.as_str());
            m.append("\r\n");
        },
        None => {},
    }
    match &email.references {
        Some(r) => {
            m.append("References: ");
            m.append(r.as_str());
            m.append("\r\n");
        },
        None => {},
    }
    match &email.body_html {
        Some(h) => {
            m.append("MIME-Version: 1.0\r\n");
            m.append("Content-Type: multipart/alternative; boundary=\"boundary-alternative\"\r\n");
            m.append("\r\n");
            m.append("--boundary-alternative\r\n");
            m.append("Content-Type: text/plain; charset=utf-8\r\n");
            m.append("\r\n");
            m.append(email.body_text.as_str());
            m.append("\r\n--boundary-alternative\r\n");
            m.append("Content-Type: text/html; charset=utf-8\r\n");
            m.append("\r\n");
            m.append(h.as_str());
            m.append("\r\n--boundary-alternative--\r\n");
        },
        None => {
            m.append("Content-Type: text/plain; charset=utf-8\r\n");
            m.append("\r\n");
            m.append(email.body_text.as_str());
        },
    }
    proof {
        assert(m@ =~= spec_rfc5322_message(*email, from_name@, from_addr@, date@, msg_id@,
            domain@));
    }
    m
}

} // verus!
