//! MIME body and attachment extraction: given a parsed message tree, the
//! first plain and the first HTML leaf in depth-first order become the
//! bodies, and every part declared `Content-Disposition: attachment` or
//! carrying a `name=`/`filename=` parameter becomes an attachment under its
//! dotted, 1-indexed part path. The hosting process
//! parses the raw message into this tree; the walk and the header-parameter
//! parsing live here.

use vstd::prelude::*;

use crate::imap::Attachment;
use crate::textutil::{
    chars_to_string, lower_chars, spec_lower_seq, spec_split, spec_starts_with, spec_trim,
    spec_u64_digits, split_chars, starts_with_chars, str_to_chars, trim_chars,
    spec_contains_seq, contains_seq, chars_skip,
};

verus! {

/// One node of a parsed message: the essentials of a MIME part, with the
/// interesting headers carried raw.
pub struct MimePart {
    pub mime_type: String,
    pub content_disposition: Option<String>,
    pub content_type_header: Option<String>,
    pub transfer_encoding: String,
    pub body_text: String,
    pub raw_size: usize,
    pub children: Vec<MimePart>,
}

/// Both-ends quote stripping, as `trim_matches('"')` does.
pub open spec fn spec_trim_quotes(s: Seq<char>) -> Seq<char>
    decreases s.len(),
{
    if s.len() == 0 {
        s
    } else if s[0] == '"' {
        spec_trim_quotes(s.skip(1))
    } else if s.last() == '"' {
        spec_trim_quotes(s.drop_last())
    } else {
        s
    }
}

fn trim_quotes(v: &Vec<char>) -> (r: Vec<char>)
    ensures
        r@ == spec_trim_quotes(v@),
{
    let mut a: usize = 0;
    let mut b: usize = v.len();
    proof {
        assert(v@.subrange(0, b as int) =~= v@);
    }
    while a < b && v[a] == '"'
        invariant
            a <= b <= v@.len(),
            b == v@.len(),
            spec_trim_quotes(v@) == spec_trim_quotes(v@.subrange(a as int, b as int)),
        decreases b - a,
    {
        proof {
            let sub = v@.subrange(a as int, b as int);
            assert(sub[0] == v@[a as int]);
            assert(sub.skip(1) =~= v@.subrange(a as int + 1, b as int));
        }
        a = a + 1;
    }
    while a < b && v[b - 1] == '"'
        invariant
            a <= b <= v@.len(),
            spec_trim_quotes(v@) == spec_trim_quotes(v@.subrange(a as int, b as int)),
            a < b ==> v@[a as int] != '"',
        decreases b,
    {
        proof {
            let sub = v@.subrange(a as int, b as int);
            assert(sub[0] == v@[a as int]);
            assert(sub.last() == v@[b as int - 1]);
            assert(sub.drop_last() =~= v@.subrange(a as int, b as int - 1));
        }
        b = b - 1;
    }
    proof {
        let sub = v@.subrange(a as int, b as int);
        if a < b {
            assert(sub[0] == v@[a as int]);
            assert(sub.last() == v@[b as int - 1]);
        }
        assert(spec_trim_quotes(sub) == sub);
    }
    let mut out: Vec<char> = Vec::new();
    let mut k: usize = a;
    proof {
        assert(out@ =~= v@.subrange(a as int, a as int));
    }
    while k < b
        invariant
            a <= k <= b <= v@.len(),
            out@ == v@.subrange(a as int, k as int),
        decreases b - k,
    {
        out.push(v[k]);
        proof {
            assert(v@.subrange(a as int, k as int + 1) =~= v@.subrange(a as int, k as int).push(
                v@[k as int],
            ));
        }
        k = k + 1;
    }
    out
}

/// The value of a `key=`-style parameter in a `;`-separated header value: the
/// first piece whose trimmed form starts (case-insensitively) with the key,
/// stripped of the key and of surrounding quotes; `trim_inner` trims again
/// between the two, as the disposition filename is.
pub open spec fn spec_param_pieces(
    pieces: Seq<Seq<char>>,
    key: Seq<char>,
    trim_inner: bool,
) -> Option<Seq<char>>
    decreases pieces.len(),
{
    if pieces.len() == 0 {
        None
    } else {
        let t = spec_trim(pieces[0]);
        if spec_starts_with(spec_lower_seq(t), key) {
            let rest = t.skip(key.len() as int);
            Some(
                spec_trim_quotes(
                    if trim_inner {
                        spec_trim(rest)
                    } else {
                        rest
                    },
                ),
            )
        } else {
            spec_param_pieces(pieces.drop_first(), key, trim_inner)
        }
    }
}

pub open spec fn spec_header_param(value: Seq<char>, key: Seq<char>, trim_inner: bool) -> Option<
    Seq<char>,
> {
    spec_param_pieces(spec_split(value, ';'), key, trim_inner)
}

/// Extracts a `key=` parameter from a `;`-separated header value.
pub fn header_param(value: &str, key: &str, trim_inner: bool) -> (r: Option<String>)
    ensures
        match r {
            Some(v) => spec_header_param(value@, key@, trim_inner) == Some(v@),
            None => spec_header_param(value@, key@, trim_inner) is None,
        },
{
    let chars = str_to_chars(value);
    let pieces = split_chars(&chars, ';');
    let kv = str_to_chars(key);
    let ghost pviews = pieces@.map_values(|p: Vec<char>| p@);
    let mut i: usize = 0;
    proof {
        assert(pviews.skip(0) =~= pviews);
    }
    while i < pieces.len()
        invariant
            i <= pieces@.len(),
            pviews == pieces@.map_values(|p: Vec<char>| p@),
            pviews == spec_split(value@, ';'),
            kv@ == key@,
            spec_param_pieces(pviews, key@, trim_inner) == spec_param_pieces(
                pviews.skip(i as int),
                key@,
                trim_inner,
            ),
        decreases pieces@.len() - i,
    {
        proof {
            assert(pviews.skip(i as int)[0] == pviews[i as int]);
            assert(pviews.skip(i as int).drop_first() =~= pviews.skip(i as int + 1));
            assert(pviews[i as int] == pieces@[i as int]@);
        }
        let t = trim_chars(&pieces[i]);
        let low = lower_chars(&t);
        if starts_with_chars(&low, &kv) {
            proof {
                assert(spec_lower_seq(t@).len() == t@.len());
                assert(key@.len() <= t@.len());
            }
            let rest = chars_skip(&t, kv.len());
            let inner = if trim_inner {
                trim_chars(&rest)
            } else {
                rest
            };
            let clean = trim_quotes(&inner);
            return Some(chars_to_string(&clean));
        }
        i = i + 1;
    }
    proof {
        assert(pviews.skip(i as int) =~= Seq::<Seq<char>>::empty());
    }
    None
}

/// Whether a part counts as an attachment: its `Content-Disposition` value,
/// lowercased, starts with `attachment`, or either header carries a file
/// name (`filename=` on the disposition, `name=` on the content type).
pub open spec fn spec_is_attachment(p: MimePart) -> bool {
    ||| (match p.content_disposition {
        Some(v) => spec_starts_with(spec_lower_seq(v@), "attachment"@) || spec_header_param(
            v@,
            "filename="@,
            true,
        ) is Some,
        None => false,
    })
    ||| (match p.content_type_header {
        Some(ct) => spec_header_param(ct@, "name="@, false) is Some,
        None => false,
    })
}

/// The file name an attachment part carries: the disposition `filename=`
/// parameter, else the content type's `name=` parameter, else `attachment`.
pub open spec fn spec_part_filename(p: MimePart) -> Seq<char> {
    let from_disp = match p.content_disposition {
        Some(v) => spec_header_param(v@, "filename="@, true),
        None => None,
    };
    match from_disp {
        Some(f) => f,
        None => match p.content_type_header {
            Some(ct) => match spec_header_param(ct@, "name="@, false) {
                Some(f) => f,
                None => "attachment"@,
            },
            None => "attachment"@,
        },
    }
}

/// The first plain and the first HTML body in depth-first order: a leaf
/// whose type contains `text/html` is the HTML candidate, any other leaf the
/// plain candidate; among siblings the earliest nonempty candidate wins.
pub open spec fn spec_bodies(p: MimePart) -> (Seq<char>, Seq<char>)
    decreases p,
{
    if p.children@.len() == 0 {
        if spec_contains_seq(spec_lower_seq(p.mime_type@), "text/html"@) {
            (Seq::empty(), p.body_text@)
        } else {
            (p.body_text@, Seq::empty())
        }
    } else {
        spec_bodies_seq(p.children@)
    }
}

pub open spec fn spec_bodies_seq(ps: Seq<MimePart>) -> (Seq<char>, Seq<char>)
    decreases ps,
{
    if ps.len() == 0 {
        (Seq::empty(), Seq::empty())
    } else {
        let h = spec_bodies(ps[0]);
        let t = spec_bodies_seq(ps.drop_first());
        (
            if h.0.len() > 0 {
                h.0
            } else {
                t.0
            },
            if h.1.len() > 0 {
                h.1
            } else {
                t.1
            },
        )
    }
}

/// Walks the tree for the first plain and HTML bodies.
pub fn extract_bodies(root: &MimePart) -> (r: (String, String))
    ensures
        r.0@ == spec_bodies(*root).0,
        r.1@ == spec_bodies(*root).1,
    decreases *root,
{
    if root.children.len() == 0 {
        let low = lower_chars(&str_to_chars(root.mime_type.as_str()));
        if contains_seq(&low, &str_to_chars("text/html")) {
            let mut text = String::new();
            let mut html = String::new();
            html.append(root.body_text.as_str());
            (text, html)
        } else {
            let mut text = String::new();
            let mut html = String::new();
            text.append(root.body_text.as_str());
            (text, html)
        }
    } else {
        let mut text = String::new();
        let mut html = String::new();
        let mut i: usize = 0;
        proof {
            assert(root.children@.skip(0) =~= root.children@);
        }
        while i < root.children.len()
            invariant
                i <= root.children@.len(),
                ({
                    let whole = spec_bodies_seq(root.children@);
                    let rest = spec_bodies_seq(root.children@.skip(i as int));
                    &&& whole.0 == (if text@.len() > 0 {
                        text@
                    } else {
                        rest.0
                    })
                    &&& whole.1 == (if html@.len() > 0 {
                        html@
                    } else {
                        rest.1
                    })
                }),
            decreases root.children@.len() - i,
        {
            proof {
                assert(root.children@.skip(i as int)[0] == root.children@[i as int]);
                assert(root.children@.skip(i as int).drop_first() =~= root.children@.skip(
                    i as int + 1,
                ));
            }
            let sub = extract_bodies(&root.children[i]);
            if text.as_str().unicode_len() == 0 && sub.0.as_str().unicode_len() > 0 {
                text = sub.0;
            }
            if html.as_str().unicode_len() == 0 && sub.1.as_str().unicode_len() > 0 {
                html = sub.1;
            }
            i = i + 1;
        }
        proof {
            assert(root.children@.skip(i as int) =~= Seq::<MimePart>::empty());
        }
        (text, html)
    }
}


/// What ammonia's sanitizer returns: a function of the markup alone.
pub uninterp spec fn spec_sanitized_html(html: Seq<char>) -> Seq<char>;

/// Relies on ammonia::clean: scripts and unsafe markup stripped,
/// deterministically in the input; the sanitized form of the empty string is
/// empty.
#[verifier::external_body]
pub fn sanitize_html(html: &str) -> (r: String)
    ensures
        r@ == spec_sanitized_html(html@),
        html@.len() == 0 ==> r@.len() == 0,
{
    ammonia::clean(html)
}

/// The bodies of a fetched message, ready for display: the first plain and
/// HTML leaves, the HTML passed through the sanitizer.
pub fn extract_display_bodies(root: &MimePart) -> (r: (String, String))
    ensures
        r.0@ == spec_bodies(*root).0,
        r.1@ == spec_sanitized_html(spec_bodies(*root).1),
{
    let (text, html) = extract_bodies(root);
    let clean = sanitize_html(html.as_str());
    (text, clean)
}

/// An attachment as (filename, mime type, size, part path, encoding).
pub open spec fn spec_att_v(a: Attachment) -> (Seq<char>, Seq<char>, int, Seq<char>, Seq<char>) {
    (a.filename@, a.mime_type@, a.size as int, a.part_id@, a.encoding@)
}

pub open spec fn spec_part_entry(p: MimePart, pid: Seq<char>) -> Seq<
    (Seq<char>, Seq<char>, int, Seq<char>, Seq<char>),
> {
    if spec_is_attachment(p) {
        seq![
            (spec_part_filename(p), p.mime_type@, p.raw_size as int, pid, p.transfer_encoding@),
        ]
    } else {
        Seq::empty()
    }
}

/// The dotted part path of the `idx`-th child under `path`.
pub open spec fn spec_child_path(path: Seq<char>, idx: int) -> Seq<char> {
    if path.len() == 0 {
        spec_u64_digits(idx)
    } else {
        path + "."@ + spec_u64_digits(idx)
    }
}

/// The attachments below a part, depth first, children numbered from 1.
pub open spec fn spec_attachments(p: MimePart, path: Seq<char>) -> Seq<
    (Seq<char>, Seq<char>, int, Seq<char>, Seq<char>),
>
    decreases p,
{
    spec_attachments_seq(p.children@, path, 1)
}

pub open spec fn spec_attachments_seq(ps: Seq<MimePart>, path: Seq<char>, idx: int) -> Seq<
    (Seq<char>, Seq<char>, int, Seq<char>, Seq<char>),
>
    decreases ps,
{
    if ps.len() == 0 {
        Seq::empty()
    } else {
        let pid = spec_child_path(path, idx);
        spec_part_entry(ps[0], pid) + spec_attachments(ps[0], pid) + spec_attachments_seq(
            ps.drop_first(),
            path,
            idx + 1,
        )
    }
}

/// Collects the attachment descriptors of a message tree: every part
/// declared an attachment, under its dotted 1-indexed path.
pub fn extract_attachments(root: &MimePart) -> (r: Vec<Attachment>)
    ensures
        r@.map_values(|a: Attachment| spec_att_v(a)) == spec_attachments(*root, Seq::empty()),
{
    let mut out: Vec<Attachment> = Vec::new();
    let empty_path: Vec<char> = Vec::new();
    push_attachments(root, &empty_path, &mut out);
    proof {
        assert(Seq::<(Seq<char>, Seq<char>, int, Seq<char>, Seq<char>)>::empty()
            + spec_attachments(*root, Seq::empty()) =~= spec_attachments(*root, Seq::empty()));
    }
    out
}

fn push_attachments(p: &MimePart, path: &Vec<char>, out: &mut Vec<Attachment>)
    ensures
        final(out)@.map_values(|a: Attachment| spec_att_v(a)) == old(out)@.map_values(
            |a: Attachment| spec_att_v(a),
        ) + spec_attachments(*p, path@),
    decreases *p,
{
    let ghost base = out@.map_values(|a: Attachment| spec_att_v(a));
    let mut i: usize = 0;
    proof {
        assert(p.children@.skip(0) =~= p.children@);
        assert(base + spec_attachments_seq(p.children@.skip(0), path@, 1) =~= base
            + spec_attachments(*p, path@));
    }
    while i < p.children.len()
        invariant
            i <= p.children@.len(),
            out@.map_values(|a: Attachment| spec_att_v(a)) + spec_attachments_seq(
                p.children@.skip(i as int),
                path@,
                i + 1,
            ) == base + spec_attachments(*p, path@),
        decreases p.children@.len() - i,
    {
        let idx: usize = i + 1;
        let ghost pre = out@.map_values(|a: Attachment| spec_att_v(a));
        proof {
            assert(p.children@.skip(i as int)[0] == p.children@[i as int]);
            assert(p.children@.skip(i as int).drop_first() =~= p.children@.skip(i as int + 1));
        }
        let child = &p.children[i];
        let mut pid: Vec<char> = Vec::new();
        if path.len() > 0 {
            let mut k: usize = 0;
            while k < path.len()
                invariant
                    k <= path@.len(),
                    pid@ == path@.take(k as int),
                decreases path@.len() - k,
            {
                pid.push(path[k]);
                proof {
                    assert(path@.take(k as int + 1) =~= path@.take(k as int).push(
                        path@[k as int],
                    ));
                }
                k = k + 1;
            }
            proof {
                assert(path@.take(k as int) =~= path@);
            }
            pid.push('.');
        }
        crate::textutil::push_u64_digits(idx as u64, &mut pid);
        proof {
            assert(pid@ =~= spec_child_path(path@, idx as int)) by {
                reveal_strlit(".");
            }
        }
        let disp_att = match &child.content_disposition {
            Some(v) => {
                let low = lower_chars(&str_to_chars(v.as_str()));
                starts_with_chars(&low, &str_to_chars("attachment")) || header_param(
                    v.as_str(),
                    "filename=",
                    true,
                ).is_some()
            },
            None => false,
        };
        let is_att = disp_att || match &child.content_type_header {
            Some(ct) => header_param(ct.as_str(), "name=", false).is_some(),
            None => false,
        };
        proof {
            reveal_strlit("attachment");
            reveal_strlit("filename=");
            reveal_strlit("name=");
            assert(is_att == spec_is_attachment(p.children@[i as int]));
        }
        if is_att {
            let from_disp = match &child.content_disposition {
                Some(v) => header_param(v.as_str(), "filename=", true),
                None => None,
            };
            let filename = match from_disp {
                Some(f) => f,
                None => match &child.content_type_header {
                    Some(ct) => match header_param(ct.as_str(), "name=", false) {
                        Some(f) => f,
                        None => "attachment".to_owned(),
                    },
                    None => "attachment".to_owned(),
                },
            };
            proof {
                reveal_strlit("filename=");
                reveal_strlit("name=");
                assert(filename@ == spec_part_filename(p.children@[i as int]));
            }
            out.push(
                Attachment {
                    filename,
                    mime_type: child.mime_type.clone(),
                    size: child.raw_size,
                    part_id: chars_to_string(&pid),
                    encoding: child.transfer_encoding.clone(),
                },
            );
            proof {
                assert(out@.map_values(|a: Attachment| spec_att_v(a)) =~= pre + spec_part_entry(
                    p.children@[i as int],
                    pid@,
                ));
            }
        } else {
            proof {
                assert(out@.map_values(|a: Attachment| spec_att_v(a)) =~= pre + spec_part_entry(
                    p.children@[i as int],
                    pid@,
                ));
            }
        }
        push_attachments(child, &pid, out);
        i = i + 1;
    }
    proof {
        assert(p.children@.skip(i as int) =~= Seq::<MimePart>::empty());
        assert(out@.map_values(|a: Attachment| spec_att_v(a)) + Seq::<
            (Seq<char>, Seq<char>, int, Seq<char>, Seq<char>),
        >::empty() =~= out@.map_values(|a: Attachment| spec_att_v(a)));
    }
}

} // verus!
