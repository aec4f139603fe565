//! Mail autoconfiguration: the probe URLs, the hand-rolled parsing of
//! Thunderbird-style autoconfig XML, placeholder expansion, and the
//! `imap./smtp.{domain}` fallback guess.

use vstd::prelude::*;

use crate::textutil::{
    chars_skip, chars_to_string, contains_seq, find_char, find_sub, replace_all,
    spec_contains_seq, spec_find, spec_find_sub, spec_parse_u32, spec_replace_all, spec_split,
    spec_trim, split_chars, str_to_chars, trim_chars, parse_u32_chars,
};

verus! {

/// A discovered or guessed account configuration.
#[derive(Clone, Debug)]
pub struct AutoConfigResult {
    pub imap_host: Option<String>,
    pub imap_port: Option<u16>,
    pub imap_socket_type: Option<String>,
    pub smtp_host: Option<String>,
    pub smtp_port: Option<u16>,
    pub smtp_socket_type: Option<String>,
    pub display_name: Option<String>,
    pub jmap_url: Option<String>,
}

/// The outcome of JMAP discovery.
#[derive(Clone, Debug)]
pub struct JmapDiscoveryResult {
    pub jmap_url: Option<String>,
}

/// The domain part of an address: the second `@`-piece, or empty.
pub open spec fn spec_email_domain(email: Seq<char>) -> Seq<char> {
    let pieces = spec_split(email, '@');
    if pieces.len() >= 2 {
        pieces[1]
    } else {
        Seq::empty()
    }
}

/// The local part of an address: the first `@`-piece.
pub open spec fn spec_email_local(email: Seq<char>) -> Seq<char> {
    spec_split(email, '@')[0]
}

/// Placeholder expansion: `%EMAILADDRESS%`, `%EMAILLOCALPART%` and
/// `%EMAILDOMAIN%` replaced in that order.
pub open spec fn spec_expand_placeholders(
    template: Seq<char>,
    email: Seq<char>,
    domain: Seq<char>,
    local: Seq<char>,
) -> Seq<char> {
    spec_replace_all(
        spec_replace_all(
            spec_replace_all(template, "%EMAILADDRESS%"@, email),
            "%EMAILLOCALPART%"@,
            local,
        ),
        "%EMAILDOMAIN%"@,
        domain,
    )
}

/// Expands the autoconfig placeholders in a hostname template.
pub fn replace_placeholders(template: &Vec<char>, email: &Vec<char>, domain: &Vec<char>, local:
    &Vec<char>) -> (r: Vec<char>)
    ensures
        r@ == spec_expand_placeholders(template@, email@, domain@, local@),
{
    let s1 = replace_all(template, &str_to_chars("%EMAILADDRESS%"), email);
    let s2 = replace_all(&s1, &str_to_chars("%EMAILLOCALPART%"), local);
    replace_all(&s2, &str_to_chars("%EMAILDOMAIN%"), domain)
}

/// The first `<tag ...>` element whose tag content carries
/// `type="{type_attr}"` (or single-quoted), through its `</tag>`; the scan
/// resumes one character on when an occurrence does not qualify.
pub open spec fn spec_find_section(
    xml: Seq<char>,
    tag: Seq<char>,
    type_attr: Seq<char>,
) -> Option<Seq<char>>
    decreases xml.len(),
{
    let pat = "<"@ + tag;
    match spec_find_sub(xml, pat) {
        None => None,
        Some(st) => if 0 <= st < xml.len() {
            let found = match spec_find(xml.skip(st), '>') {
                None => None,
                Some(te) => {
                    let content = xml.subrange(st, st + te + 1);
                    if spec_contains_seq(content, "type=\""@ + type_attr + "\""@)
                        || spec_contains_seq(content, "type='"@ + type_attr + "'"@) {
                        let close = "</"@ + tag + ">"@;
                        match spec_find_sub(xml.skip(st), close) {
                            None => None,
                            Some(e) => Some(xml.subrange(st, st + e + close.len())),
                        }
                    } else {
                        None
                    }
                },
            };
            match found {
                Some(sec) => Some(sec),
                None => spec_find_section(xml.skip(st + 1), tag, type_attr),
            }
        } else {
            None
        },
    }
}

/// Finds the typed server section of an autoconfig document.
pub fn find_section(xml: &Vec<char>, tag: &str, type_attr: &str) -> (r: Option<Vec<char>>)
    ensures
        match r {
            Some(v) => spec_find_section(xml@, tag@, type_attr@) == Some(v@),
            None => spec_find_section(xml@, tag@, type_attr@) is None,
        },
    decreases xml@.len(),
{
    let n = xml.len();
    let tagc = str_to_chars(tag);
    let tac = str_to_chars(type_attr);
    let mut pat: Vec<char> = str_to_chars("<");
    append_chars(&mut pat, &tagc);
    proof {
        assert(pat@ =~= "<"@ + tag@);
    }
    let st = match find_sub(xml, &pat) {
        None => {
            return None;
        },
        Some(p) => p,
    };
    proof {
        assert(0 <= st < xml@.len() || pat@.len() == 0 || st + pat@.len() <= xml@.len());
    }
    if st >= xml.len() {
        return None;
    }
    let rest = chars_skip(xml, st);
    proof {
        assert(rest@ == xml@.skip(st as int));
    }
    let found: Option<Vec<char>> = match find_char(&rest, '>') {
        None => None,
        Some(te) => {
            let mut content: Vec<char> = Vec::new();
            let mut k: usize = st;
            proof {
                assert(st + te < xml@.len()) by {
                    assert(rest@[te as int] == xml@[st + te]);
                }
                assert(content@ =~= xml@.subrange(st as int, st as int));
            }
            while k <= st + te
                invariant
                    n == xml@.len(),
                    st <= k <= st + te + 1,
                    st + te < xml@.len(),
                    content@ == xml@.subrange(st as int, k as int),
                decreases st + te + 1 - k,
            {
                content.push(xml[k]);
                proof {
                    assert(xml@.subrange(st as int, k as int + 1) =~= xml@.subrange(
                        st as int,
                        k as int,
                    ).push(xml@[k as int]));
                }
                k = k + 1;
            }
            let mut q1: Vec<char> = str_to_chars("type=\"");
            append_chars(&mut q1, &tac);
            q1.push('"');
            let mut q2: Vec<char> = str_to_chars("type='");
            append_chars(&mut q2, &tac);
            q2.push('\'');
            proof {
                reveal_strlit("\"");
                reveal_strlit("'");
                assert(q1@ =~= "type=\""@ + type_attr@ + "\""@);
                assert(q2@ =~= "type='"@ + type_attr@ + "'"@);
            }
            if contains_seq(&content, &q1) || contains_seq(&content, &q2) {
                let mut close: Vec<char> = str_to_chars("</");
                append_chars(&mut close, &tagc);
                close.push('>');
                proof {
                    reveal_strlit(">");
                    assert(close@ =~= "</"@ + tag@ + ">"@);
                }
                match find_sub(&rest, &close) {
                    None => None,
                    Some(e) => {
                        let mut section: Vec<char> = Vec::new();
                        let mut m: usize = st;
                        let hi = st + e + close.len();
                        proof {
                            assert(e + close@.len() <= rest@.len());
                            assert(hi <= xml@.len());
                            assert(section@ =~= xml@.subrange(st as int, st as int));
                        }
                        while m < hi
                            invariant
                                n == xml@.len(),
                                st <= m <= hi <= xml@.len(),
                                section@ == xml@.subrange(st as int, m as int),
                            decreases hi - m,
                        {
                            section.push(xml[m]);
                            proof {
                                assert(xml@.subrange(st as int, m as int + 1) =~= xml@.subrange(
                                    st as int,
                                    m as int,
                                ).push(xml@[m as int]));
                            }
                            m = m + 1;
                        }
                        Some(section)
                    },
                }
            } else {
                None
            }
        },
    };
    match found {
        Some(sec) => Some(sec),
        None => {
            let tail = chars_skip(xml, st + 1);
            proof {
                assert(tail@ == xml@.skip(st as int + 1));
            }
            find_section(&tail, tag, type_attr)
        },
    }
}

fn append_chars(dst: &mut Vec<char>, src: &Vec<char>)
    ensures
        final(dst)@ == old(dst)@ + src@,
{
    let mut i: usize = 0;
    while i < src.len()
        invariant
            i <= src@.len(),
            dst@ == old(dst)@ + src@.take(i as int),
        decreases src@.len() - i,
    {
        dst.push(src[i]);
        proof {
            assert(src@.take(i as int + 1) =~= src@.take(i as int).push(src@[i as int]));
            assert(dst@ =~= old(dst)@ + src@.take(i as int + 1));
        }
        i = i + 1;
    }
    proof {
        assert(src@.take(i as int) =~= src@);
    }
}

/// The trimmed text between `<tag>` and `</tag>`; empty values count as
/// absent.
pub open spec fn spec_extract_value(xml: Seq<char>, tag: Seq<char>) -> Option<Seq<char>> {
    let open = "<"@ + tag + ">"@;
    let close = "</"@ + tag + ">"@;
    match spec_find_sub(xml, open) {
        None => None,
        Some(st) => {
            let vs = st + open.len();
            match spec_find_sub(xml.skip(vs), close) {
                None => None,
                Some(e) => {
                    let v = spec_trim(xml.subrange(vs, vs + e));
                    if v.len() > 0 {
                        Some(v)
                    } else {
                        None
                    }
                },
            }
        },
    }
}

/// Extracts a simple tagged value from an autoconfig document.
pub fn extract_value(xml: &Vec<char>, tag: &str) -> (r: Option<Vec<char>>)
    ensures
        match r {
            Some(v) => spec_extract_value(xml@, tag@) == Some(v@),
            None => spec_extract_value(xml@, tag@) is None,
        },
{
    let n = xml.len();
    let tagc = str_to_chars(tag);
    let mut open: Vec<char> = str_to_chars("<");
    append_chars(&mut open, &tagc);
    open.push('>');
    let mut close: Vec<char> = str_to_chars("</");
    append_chars(&mut close, &tagc);
    close.push('>');
    proof {
        reveal_strlit(">");
        assert(open@ =~= "<"@ + tag@ + ">"@);
        assert(close@ =~= "</"@ + tag@ + ">"@);
    }
    let st = match find_sub(xml, &open) {
        None => {
            return None;
        },
        Some(p) => p,
    };
    let vs = st + open.len();
    let rest = chars_skip(xml, vs);
    proof {
        assert(rest@ == xml@.skip(vs as int));
    }
    let e = match find_sub(&rest, &close) {
        None => {
            return None;
        },
        Some(p) => p,
    };
    let mut raw: Vec<char> = Vec::new();
    let mut k: usize = vs;
    proof {
        assert(e + close@.len() <= rest@.len());
        assert(vs + e <= xml@.len());
        assert(raw@ =~= xml@.subrange(vs as int, vs as int));
    }
    while k < vs + e
        invariant
            n == xml@.len(),
            vs <= k <= vs + e <= xml@.len(),
            raw@ == xml@.subrange(vs as int, k as int),
        decreases vs + e - k,
    {
        raw.push(xml[k]);
        proof {
            assert(xml@.subrange(vs as int, k as int + 1) =~= xml@.subrange(
                vs as int,
                k as int,
            ).push(xml@[k as int]));
        }
        k = k + 1;
    }
    let v = trim_chars(&raw);
    if v.len() > 0 {
        Some(v)
    } else {
        None
    }
}

/// A parsed port: a decimal number that fits the port range.
pub open spec fn spec_port_of(v: Seq<char>) -> Option<u16> {
    match spec_parse_u32(v) {
        Some(p) => if p <= 65535 {
            Some(p as u16)
        } else {
            None
        },
        None => None,
    }
}

/// The host a server section names, placeholders expanded.
pub open spec fn spec_section_host(section: Seq<char>, email: Seq<char>) -> Option<Seq<char>> {
    match spec_extract_value(section, "hostname"@) {
        Some(h) => Some(
            spec_expand_placeholders(
                h,
                email,
                spec_email_domain(email),
                spec_email_local(email),
            ),
        ),
        None => None,
    }
}

pub open spec fn spec_section_port(section: Seq<char>) -> Option<u16> {
    match spec_extract_value(section, "port"@) {
        Some(p) => spec_port_of(p),
        None => None,
    }
}

fn opt_chars_to_string(v: Option<Vec<char>>) -> (r: Option<String>)
    ensures
        (match v {
            Some(x) => r matches Some(s) && s@ == x@,
            None => r is None,
        }),
{
    match v {
        Some(x) => Some(chars_to_string(&x)),
        None => None,
    }
}

/// Parses a Thunderbird-style autoconfig document: the `imap` incoming and
/// `smtp` outgoing sections give hosts (placeholders expanded), ports and
/// socket types; a document naming neither host is `None`.
#[verifier::rlimit(100)]
pub fn parse_autoconfig_xml(xml: &str, email: &str) -> (r: Option<AutoConfigResult>)
    ensures
        ({
            let x = xml@;
            let imap_sec = spec_find_section(x, "incomingServer"@, "imap"@);
            let smtp_sec = spec_find_section(x, "outgoingServer"@, "smtp"@);
            let imap_host = match imap_sec {
                Some(sec) => spec_section_host(sec, email@),
                None => None,
            };
            let smtp_host = match smtp_sec {
                Some(sec) => spec_section_host(sec, email@),
                None => None,
            };
            match r {
                Some(cfg) => {
                    &&& (imap_host is Some || smtp_host is Some)
                    &&& (match (cfg.imap_host, imap_host) {
                        (Some(a), Some(b)) => a@ == b,
                        (None, None) => true,
                        _ => false,
                    })
                    &&& (match (cfg.smtp_host, smtp_host) {
                        (Some(a), Some(b)) => a@ == b,
                        (None, None) => true,
                        _ => false,
                    })
                    &&& cfg.imap_port == (match imap_sec {
                        Some(sec) => spec_section_port(sec),
                        None => None,
                    })
                    &&& cfg.smtp_port == (match smtp_sec {
                        Some(sec) => spec_section_port(sec),
                        None => None,
                    })
                    &&& (match (cfg.imap_socket_type, imap_sec) {
                        (Some(a), Some(sec)) => spec_extract_value(sec, "socketType"@) == Some(
                            a@,
                        ),
                        (None, Some(sec)) => spec_extract_value(sec, "socketType"@) is None,
                        (None, None) => true,
                        (Some(_), None) => false,
                    })
                    &&& (match (cfg.smtp_socket_type, smtp_sec) {
                        (Some(a), Some(sec)) => spec_extract_value(sec, "socketType"@) == Some(
                            a@,
                        ),
                        (None, Some(sec)) => spec_extract_value(sec, "socketType"@) is None,
                        (None, None) => true,
                        (Some(_), None) => false,
                    })
                    &&& (match cfg.display_name {
                        Some(d) => spec_extract_value(x, "displayName"@) == Some(d@),
                        None => spec_extract_value(x, "displayName"@) is None,
                    })
                    &&& cfg.jmap_url is None
                },
                None => imap_host is None && smtp_host is None,
            }
        }),
{
    let xc = str_to_chars(xml);
    let ec = str_to_chars(email);
    let pieces = split_chars(&ec, '@');
    proof {
        crate::textutil::lemma_split_len(ec@, '@');
        assert(pieces@.map_values(|p: Vec<char>| p@).len() == pieces@.len());
        assert(pieces@.map_values(|p: Vec<char>| p@)[0] == pieces@[0]@);
        if pieces@.len() >= 2 {
            assert(pieces@.map_values(|p: Vec<char>| p@)[1] == pieces@[1]@);
        }
    }
    let local = &pieces[0];
    let empty_domain: Vec<char> = Vec::new();
    let domain = if pieces.len() >= 2 {
        &pieces[1]
    } else {
        &empty_domain
    };
    proof {
        assert(domain@ == spec_email_domain(email@));
        assert(local@ == spec_email_local(email@));
    }

    let mut imap_host: Option<String> = None;
    let mut imap_port: Option<u16> = None;
    let mut imap_socket: Option<String> = None;
    match find_section(&xc, "incomingServer", "imap") {
        Some(sec) => {
            match extract_value(&sec, "hostname") {
                Some(h) => {
                    let expanded = replace_placeholders(&h, &ec, domain, local);
                    imap_host = Some(chars_to_string(&expanded));
                },
                None => {},
            }
            match extract_value(&sec, "port") {
                Some(p) => {
                    match parse_u32_chars(p.as_slice()) {
                        Some(v) => {
                            if v <= 65535 {
                                imap_port = Some(v as u16);
                            }
                        },
                        None => {},
                    }
                },
                None => {},
            }
            imap_socket = opt_chars_to_string(extract_value(&sec, "socketType"));
        },
        None => {},
    }

    let mut smtp_host: Option<String> = None;
    let mut smtp_port: Option<u16> = None;
    let mut smtp_socket: Option<String> = None;
    match find_section(&xc, "outgoingServer", "smtp") {
        Some(sec) => {
            match extract_value(&sec, "hostname") {
                Some(h) => {
                    let expanded = replace_placeholders(&h, &ec, domain, local);
                    smtp_host = Some(chars_to_string(&expanded));
                },
                None => {},
            }
            match extract_value(&sec, "port") {
                Some(p) => {
                    match parse_u32_chars(p.as_slice()) {
                        Some(v) => {
                            if v <= 65535 {
                                smtp_port = Some(v as u16);
                            }
                        },
                        None => {},
                    }
                },
                None => {},
            }
            smtp_socket = opt_chars_to_string(extract_value(&sec, "socketType"));
        },
        None => {},
    }

    let display_name = opt_chars_to_string(extract_value(&xc, "displayName"));

    if imap_host.is_some() || smtp_host.is_some() {
        Some(
            AutoConfigResult {
                imap_host,
                imap_port,
                imap_socket_type: imap_socket,
                smtp_host,
                smtp_port,
                smtp_socket_type: smtp_socket,
                display_name,
                jmap_url: None,
            },
        )
    } else {
        None
    }
}

/// The autoconfig endpoints probed for a domain, in order.
pub fn autoconfig_urls(email: &str, domain: &str) -> (r: Vec<String>)
    ensures
        r@.len() == 4,
        r@[0]@ == "https://autoconfig."@ + domain@ + "/mail/config-v1.1.xml?emailaddress="@
            + email@,
        r@[1]@ == "https://"@ + domain@ + "/.well-known/autoconfig/mail/config-v1.1.xml?emailaddress="@
            + email@,
        r@[2]@ == "http://autoconfig."@ + domain@ + "/mail/config-v1.1.xml?emailaddress="@
            + email@,
        r@[3]@ == "https://autoconfig.thunderbird.net/v1.1/"@ + domain@,
{
    let mut out: Vec<String> = Vec::new();
    let mut u0 = String::new();
    u0.append("https://autoconfig.");
    u0.append(domain);
    u0.append("/mail/config-v1.1.xml?emailaddress=");
    u0.append(email);
    out.push(u0);
    let mut u1 = String::new();
    u1.append("https://");
    u1.append(domain);
    u1.append("/.well-known/autoconfig/mail/config-v1.1.xml?emailaddress=");
    u1.append(email);
    out.push(u1);
    let mut u2 = String::new();
    u2.append("http://autoconfig.");
    u2.append(domain);
    u2.append("/mail/config-v1.1.xml?emailaddress=");
    u2.append(email);
    out.push(u2);
    let mut u3 = String::new();
    u3.append("https://autoconfig.thunderbird.net/v1.1/");
    u3.append(domain);
    out.push(u3);
    out
}

/// The JMAP discovery endpoints probed for a domain, in order.
pub fn jmap_probe_urls(domain: &str) -> (r: Vec<String>)
    ensures
        r@.len() == 3,
        r@[0]@ == "https://"@ + domain@ + "/.well-known/jmap"@,
        r@[1]@ == "https://mail."@ + domain@ + "/.well-known/jmap"@,
        r@[2]@ == "https://jmap."@ + domain@ + "/.well-known/jmap"@,
{
    let mut out: Vec<String> = Vec::new();
    let mut u0 = String::new();
    u0.append("https://");
    u0.append(domain);
    u0.append("/.well-known/jmap");
    out.push(u0);
    let mut u1 = String::new();
    u1.append("https://mail.");
    u1.append(domain);
    u1.append("/.well-known/jmap");
    out.push(u1);
    let mut u2 = String::new();
    u2.append("https://jmap.");
    u2.append(domain);
    u2.append("/.well-known/jmap");
    out.push(u2);
    out
}

/// The guessed configuration when every probe fails: IMAP on 993 over SSL
/// and SMTP on 587 with STARTTLS, both under the mail domain.
pub fn fallback_config(domain: &str) -> (r: AutoConfigResult)
    ensures
        r.imap_host matches Some(h) && h@ == "imap."@ + domain@,
        r.imap_port == Some(993u16),
        r.imap_socket_type matches Some(t) && t@ == "SSL"@,
        r.smtp_host matches Some(h) && h@ == "smtp."@ + domain@,
        r.smtp_port == Some(587u16),
        r.smtp_socket_type matches Some(t) && t@ == "STARTTLS"@,
        r.display_name is None,
        r.jmap_url is None,
{
    let mut ih = String::new();
    ih.append("imap.");
    ih.append(domain);
    let mut sh = String::new();
    sh.append("smtp.");
    sh.append(domain);
    AutoConfigResult {
        imap_host: Some(ih),
        imap_port: Some(993),
        imap_socket_type: Some("SSL".to_owned()),
        smtp_host: Some(sh),
        smtp_port: Some(587),
        smtp_socket_type: Some("STARTTLS".to_owned()),
        display_name: None,
        jmap_url: None,
    }
}

} // verus!
