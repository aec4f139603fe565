//! RFC 2047 encoded-word decoding for message headers: `=?charset?B|Q?text?=`
//! tokens with base64 or quoted-printable payloads, UTF-8 and Latin-1
//! charsets, and whitespace elision between consecutive encoded words.

use vstd::prelude::*;

use crate::b64::{b64_decode_std_chars, spec_b64_decode_std};
use crate::textutil::{chars_to_string, str_to_chars};

verus! {

/// Relies on String::from_utf8_lossy: the result is a function of the bytes
/// alone, and on well-formed UTF-8 it is exactly the decoded string.
#[verifier::external_body]
pub fn utf8_lossy(bytes: &Vec<u8>) -> (r: String)
    ensures
        r@ == spec_utf8_lossy(bytes@),
        vstd::utf8::valid_utf8(bytes@) ==> r@ == vstd::utf8::decode_utf8(bytes@),
{
    String::from_utf8_lossy(bytes.as_slice()).into_owned()
}

/// What String::from_utf8_lossy returns on the given bytes.
pub uninterp spec fn spec_utf8_lossy(bytes: Seq<u8>) -> Seq<char>;

pub open spec fn spec_hex_val(c: char) -> int {
    let u = c as u32;
    if 48 <= u <= 57 {
        u - 48
    } else if 65 <= u <= 70 {
        u - 65 + 10
    } else if 97 <= u <= 102 {
        u - 97 + 10
    } else {
        16
    }
}

/// Quoted-printable payload bytes: `=XX` is a hex-coded byte (dropped when the
/// hex is bad or short), any other character passes through as its low byte.
pub open spec fn spec_qp_decode(s: Seq<char>) -> Seq<u8>
    decreases s.len(),
{
    if s.len() == 0 {
        Seq::empty()
    } else if s[0] == '=' {
        if s.len() >= 3 {
            let h = spec_hex_val(s[1]);
            let l = spec_hex_val(s[2]);
            (if h < 16 && l < 16 {
                seq![(h * 16 + l) as u8]
            } else {
                Seq::empty()
            }) + spec_qp_decode(s.skip(3))
        } else {
            Seq::empty()
        }
    } else {
        seq![((s[0] as u32) % 256) as u8] + spec_qp_decode(s.skip(1))
    }
}

fn hex_val(c: char) -> (v: u32)
    ensures
        v == spec_hex_val(c),
{
    let u = c as u32;
    if 48 <= u && u <= 57 {
        u - 48
    } else if 65 <= u && u <= 70 {
        u - 65 + 10
    } else if 97 <= u && u <= 102 {
        u - 97 + 10
    } else {
        16
    }
}

fn qp_decode_chars(s: &[char]) -> (r: Vec<u8>)
    ensures
        r@ == spec_qp_decode(s@),
{
    let mut out: Vec<u8> = Vec::new();
    let mut i: usize = 0;
    proof {
        assert(s@.skip(0) =~= s@);
        assert(out@ + spec_qp_decode(s@.skip(0)) =~= spec_qp_decode(s@));
    }
    while i < s.len()
        invariant
            i <= s@.len(),
            out@ + spec_qp_decode(s@.skip(i as int)) == spec_qp_decode(s@),
        decreases s@.len() - i,
    {
        let ghost pre = out@;
        let ghost rem = s@.skip(i as int);
        proof {
            assert(rem[0] == s@[i as int]);
        }
        if s[i] == '=' {
            if s.len() - i >= 3 {
                let h = hex_val(s[i + 1]);
                let l = hex_val(s[i + 2]);
                proof {
                    assert(rem[1] == s@[i as int + 1]);
                    assert(rem[2] == s@[i as int + 2]);
                    assert(rem.skip(3) =~= s@.skip(i as int + 3));
                }
                if h < 16 && l < 16 {
                    out.push((h * 16 + l) as u8);
                }
                proof {
                    assert(out@ + spec_qp_decode(s@.skip(i as int + 3)) =~= pre + spec_qp_decode(
                        rem,
                    ));
                }
                i = i + 3;
            } else {
                proof {
                    assert(spec_qp_decode(rem) =~= Seq::<u8>::empty());
                    assert(s@.skip(s@.len() as int) =~= Seq::<char>::empty());
                    assert(out@ + spec_qp_decode(s@.skip(s@.len() as int)) =~= pre
                        + spec_qp_decode(rem));
                }
                i = s.len();
            }
        } else {
            let c = s[i];
            out.push(((c as u32) % 256) as u8);
            proof {
                assert(rem.skip(1) =~= s@.skip(i as int + 1));
                assert(out@ + spec_qp_decode(s@.skip(i as int + 1)) =~= pre + spec_qp_decode(rem));
            }
            i = i + 1;
        }
    }
    proof {
        assert(s@.skip(i as int) =~= Seq::<char>::empty());
        assert(out@ + Seq::<u8>::empty() =~= out@);
    }
    out
}

/// Decodes a quoted-printable payload (already `_`-to-space mapped by the
/// caller, as encoded words require).
pub fn decode_quoted_printable(input: &str) -> (r: Option<Vec<u8>>)
    ensures
        r matches Some(v) && v@ == spec_qp_decode(input@),
{
    let chars = str_to_chars(input);
    Some(qp_decode_chars(chars.as_slice()))
}

pub open spec fn spec_ascii_lower(c: char) -> char {
    let u = c as u32;
    if 65 <= u <= 90 {
        ((u + 32) as u32) as char
    } else {
        c
    }
}

/// ASCII-case-insensitive equality of two character sequences.
pub open spec fn spec_eq_ignore_case(a: Seq<char>, b: Seq<char>) -> bool {
    a.len() == b.len() && forall|i: int|
        0 <= i < a.len() ==> spec_ascii_lower(#[trigger] a[i]) == spec_ascii_lower(b[i])
}

fn eq_ignore_case(a: &[char], b: &[char]) -> (r: bool)
    ensures
        r == spec_eq_ignore_case(a@, b@),
{
    if a.len() != b.len() {
        return false;
    }
    let mut i: usize = 0;
    while i < a.len()
        invariant
            i <= a@.len(),
            a@.len() == b@.len(),
            forall|k: int|
                0 <= k < i ==> spec_ascii_lower(#[trigger] a@[k]) == spec_ascii_lower(b@[k]),
        decreases a@.len() - i,
    {
        let ua = a[i] as u32;
        let ub = b[i] as u32;
        let la = if 65 <= ua && ua <= 90 {
            ua + 32
        } else {
            ua
        };
        let lb = if 65 <= ub && ub <= 90 {
            ub + 32
        } else {
            ub
        };
        if la != lb {
            proof {
                vstd::utf8::char_u32_cast(a@[i as int], ua);
                vstd::utf8::char_u32_cast(b@[i as int], ub);
                assert(spec_ascii_lower(a@[i as int]) as u32 == la);
                assert(spec_ascii_lower(b@[i as int]) as u32 == lb);
            }
            return false;
        }
        proof {
            assert(spec_ascii_lower(a@[i as int]) as u32 == la);
            assert(spec_ascii_lower(b@[i as int]) as u32 == lb);
            vstd::utf8::char_u32_cast(spec_ascii_lower(a@[i as int]), la);
            vstd::utf8::char_u32_cast(spec_ascii_lower(b@[i as int]), lb);
        }
        i = i + 1;
    }
    true
}

/// Latin-1: each byte is the character with that code.
pub open spec fn spec_latin1_chars(bytes: Seq<u8>) -> Seq<char>
    decreases bytes.len(),
{
    if bytes.len() == 0 {
        Seq::empty()
    } else {
        spec_latin1_chars(bytes.drop_last()) + seq![(bytes.last() as u32) as char]
    }
}

fn latin1_chars(bytes: &Vec<u8>, out: &mut Vec<char>)
    ensures
        final(out)@ == old(out)@ + spec_latin1_chars(bytes@),
{
    let mut i: usize = 0;
    proof {
        assert(out@ =~= old(out)@ + spec_latin1_chars(bytes@.take(0)));
    }
    while i < bytes.len()
        invariant
            i <= bytes@.len(),
            out@ == old(out)@ + spec_latin1_chars(bytes@.take(i as int)),
        decreases bytes@.len() - i,
    {
        let b = bytes[i];
        match crate::utf7::char_from_u32(b as u32) {
            Some(c) => {
                proof {
                    vstd::utf8::char_u32_cast(c, b as u32);
                }
                out.push(c);
            },
            None => {
                proof {
                    assert(false);
                }
            },
        }
        proof {
            assert(bytes@.take(i as int + 1).drop_last() =~= bytes@.take(i as int));
            assert(bytes@.take(i as int + 1).last() == bytes@[i as int]);
            assert(out@ =~= old(out)@ + spec_latin1_chars(bytes@.take(i as int + 1)));
        }
        i = i + 1;
    }
    proof {
        assert(bytes@.take(i as int) =~= bytes@);
    }
}

/// How one decoded payload reads under a charset label: UTF-8 and unknown
/// charsets decode as (lossy) UTF-8, Latin-1 byte by byte.
pub open spec fn spec_charset_chars(charset: Seq<char>, bytes: Seq<u8>) -> Seq<char> {
    if spec_eq_ignore_case(charset, "iso-8859-1"@) || spec_eq_ignore_case(charset, "latin1"@) {
        spec_latin1_chars(bytes)
    } else {
        spec_utf8_lossy(bytes)
    }
}

/// The payload bytes of one encoded word, by encoding letter: `B` is padded
/// base64, `Q` is quoted-printable with `_` read as space; anything else is
/// malformed.
pub open spec fn spec_word_bytes(enc: char, text: Seq<char>) -> Option<Seq<u8>> {
    if spec_ascii_lower(enc) == 'b' {
        spec_b64_decode_std(text)
    } else if spec_ascii_lower(enc) == 'q' {
        Some(spec_qp_decode(text.map_values(|c: char| if c == '_' { ' ' } else { c })))
    } else {
        None
    }
}

/// Leading whitespace that separates two encoded words and is elided.
pub open spec fn spec_ws_run(s: Seq<char>) -> int
    decreases s.len(),
{
    if s.len() == 0 {
        0
    } else if s[0] == ' ' || s[0] == '\t' {
        1 + spec_ws_run(s.skip(1))
    } else {
        0
    }
}

pub open spec fn spec_word_start(s: Seq<char>) -> bool {
    s.len() >= 2 && s[0] == '=' && s[1] == '?'
}

/// Index of the first `?=` pair.
pub open spec fn spec_find_term(s: Seq<char>) -> Option<int>
    decreases s.len(),
{
    if s.len() < 2 {
        None
    } else if s[0] == '?' && s[1] == '=' {
        Some(0)
    } else {
        match spec_find_term(s.skip(1)) {
            None => None,
            Some(k) => Some(k + 1),
        }
    }
}

/// The parts of an encoded word at the head of `s`: charset, encoding letter,
/// payload, and total length consumed.
pub open spec fn spec_parse_word(s: Seq<char>) -> Option<(Seq<char>, char, Seq<char>, int)> {
    if !spec_word_start(s) {
        None
    } else {
        match crate::textutil::spec_find(s.skip(2), '?') {
            None => None,
            Some(ci) => {
                let charset = s.skip(2).take(ci);
                let tail = s.skip(2 + ci + 1);
                if tail.len() >= 2 && tail[1] == '?' {
                    let enc = tail[0];
                    match spec_find_term(tail.skip(2)) {
                        None => None,
                        Some(j) => Some((charset, enc, tail.skip(2).take(j), 2 + ci + 1 + 2 + j + 2)),
                    }
                } else {
                    None
                }
            },
        }
    }
}

pub proof fn lemma_find_term_some(s: Seq<char>, j: int)
    requires
        0 <= j,
        j + 1 < s.len(),
        s[j] == '?',
        s[j + 1] == '=',
        forall|k: int| 0 <= k < j ==> !((#[trigger] s[k]) == '?' && s[k + 1] == '='),
    ensures
        spec_find_term(s) == Some(j),
    decreases s.len(),
{
    if j > 0 {
        assert(!(s[0] == '?' && s[1] == '='));
        assert forall|k: int| 0 <= k < j - 1 implies !((#[trigger] s.skip(1)[k]) == '?' && s.skip(
            1,
        )[k + 1] == '=') by {
            assert(s.skip(1)[k] == s[k + 1]);
            assert(s.skip(1)[k + 1] == s[k + 2]);
        }
        assert(s.skip(1)[j - 1] == s[j]);
        assert(s.skip(1)[j] == s[j + 1]);
        lemma_find_term_some(s.skip(1), j - 1);
    }
}

pub proof fn lemma_find_term_none(s: Seq<char>)
    requires
        forall|k: int| 0 <= k < s.len() - 1 ==> !((#[trigger] s[k]) == '?' && s[k + 1] == '='),
    ensures
        spec_find_term(s) is None,
    decreases s.len(),
{
    if s.len() >= 2 {
        assert forall|k: int| 0 <= k < s.skip(1).len() - 1 implies !((#[trigger] s.skip(1)[k]) == '?'
            && s.skip(1)[k + 1] == '=') by {
            assert(s.skip(1)[k] == s[k + 1]);
            assert(s.skip(1)[k + 1] == s[k + 2]);
        }
        lemma_find_term_none(s.skip(1));
    }
}

/// The decoded header: encoded words are replaced by their text, whitespace
/// between two encoded words is elided, and malformed tokens stay verbatim.
pub open spec fn spec_rfc2047_decode(s: Seq<char>) -> Seq<char>
    decreases s.len(),
{
    if s.len() == 0 {
        Seq::empty()
    } else if spec_word_start(s) {
        match spec_parse_word(s) {
            Some(w) => if 0 < w.3 <= s.len() {
                let decoded = match spec_word_bytes(w.1, w.2) {
                    Some(bytes) => spec_charset_chars(w.0, bytes),
                    None => s.take(w.3),
                };
                let rest = s.skip(w.3);
                let ws = spec_ws_run(rest);
                if 0 < ws <= rest.len() && spec_word_start(rest.skip(ws)) {
                    decoded + spec_rfc2047_decode(rest.skip(ws))
                } else {
                    decoded + spec_rfc2047_decode(rest)
                }
            } else {
                seq![s[0]] + spec_rfc2047_decode(s.skip(1))
            },
            None => seq![s[0]] + spec_rfc2047_decode(s.skip(1)),
        }
    } else {
        seq![s[0]] + spec_rfc2047_decode(s.skip(1))
    }
}

fn collect_range(chars: &Vec<char>, a: usize, b: usize) -> (r: Vec<char>)
    requires
        a <= b <= chars@.len(),
    ensures
        r@ == chars@.subrange(a as int, b as int),
{
    let mut out: Vec<char> = Vec::new();
    let mut k: usize = a;
    proof {
        assert(out@ =~= chars@.subrange(a as int, a as int));
    }
    while k < b
        invariant
            a <= k <= b <= chars@.len(),
            out@ == chars@.subrange(a as int, k as int),
        decreases b - k,
    {
        out.push(chars[k]);
        proof {
            assert(chars@.subrange(a as int, k as int + 1) =~= chars@.subrange(
                a as int,
                k as int,
            ).push(chars@[k as int]));
        }
        k = k + 1;
    }
    out
}

/// Decodes all RFC 2047 encoded words in a header string.
pub fn decode_rfc2047(input: &str) -> (r: String)
    ensures
        r@ == spec_rfc2047_decode(input@),
{
    let chars = str_to_chars(input);
    let mut out: Vec<char> = Vec::new();
    let mut i: usize = 0;
    proof {
        assert(chars@.skip(0) =~= chars@);
        assert(out@ + spec_rfc2047_decode(chars@.skip(0)) =~= spec_rfc2047_decode(chars@));
    }
    while i < chars.len()
        invariant
            i <= chars@.len(),
            out@ + spec_rfc2047_decode(chars@.skip(i as int)) == spec_rfc2047_decode(chars@),
        decreases chars@.len() - i,
    {
        let ghost pre = out@;
        let ghost rem = chars@.skip(i as int);
        proof {
            assert(rem[0] == chars@[i as int]);
            if rem.len() >= 2 {
                assert(rem[1] == chars@[i as int + 1]);
            }
            assert(rem.skip(1) =~= chars@.skip(i as int + 1));
        }
        let is_start = chars.len() - i >= 2 && chars[i] == '=' && chars[i + 1] == '?';
        let mut handled = false;
        if is_start {
            match parse_word_at(&chars, i) {
                Some((charset, enc, text, used)) => {
                    proof {
                        assert(spec_parse_word(rem) matches Some(w) && w.0 == charset@ && w.1
                            == enc && w.2 == text@ && w.3 == used - i);
                        assert(0 < used - i <= rem.len());
                    }
                    let lower_enc = {
                        let ue = enc as u32;
                        if 65 <= ue && ue <= 90 {
                            proof {
                                vstd::utf8::char_u32_cast(spec_ascii_lower(enc), (ue + 32) as u32);
                            }
                            ((ue + 32) as u8) as char
                        } else {
                            enc
                        }
                    };
                    let bytes_opt: Option<Vec<u8>> = if lower_enc == 'b' {
                        b64_decode_std_chars(text.as_slice())
                    } else if lower_enc == 'q' {
                        let mut mapped: Vec<char> = Vec::new();
                        let mut m: usize = 0;
                        proof {
                            assert(mapped@ =~= text@.take(0).map_values(
                                |c: char| if c == '_' {
                                    ' '
                                } else {
                                    c
                                },
                            ));
                        }
                        while m < text.len()
                            invariant
                                m <= text@.len(),
                                mapped@ == text@.take(m as int).map_values(
                                    |c: char| if c == '_' {
                                        ' '
                                    } else {
                                        c
                                    },
                                ),
                            decreases text@.len() - m,
                        {
                            let c = text[m];
                            if c == '_' {
                                mapped.push(' ');
                            } else {
                                mapped.push(c);
                            }
                            proof {
                                assert(mapped@ =~= text@.take(m as int + 1).map_values(
                                    |c: char| if c == '_' {
                                        ' '
                                    } else {
                                        c
                                    },
                                ));
                            }
                            m = m + 1;
                        }
                        proof {
                            assert(text@.take(m as int) =~= text@);
                        }
                        Some(qp_decode_chars(mapped.as_slice()))
                    } else {
                        None
                    };
                    proof {
                        assert(bytes_opt matches Some(v) ==> spec_word_bytes(enc, text@) == Some(
                            v@,
                        ));
                        assert(bytes_opt is None ==> spec_word_bytes(enc, text@) is None);
                    }
                    match bytes_opt {
                        Some(bytes) => {
                            let iso = str_to_chars("iso-8859-1");
                            let lat = str_to_chars("latin1");
                            if eq_ignore_case(charset.as_slice(), iso.as_slice()) || eq_ignore_case(
                                charset.as_slice(),
                                lat.as_slice(),
                            ) {
                                latin1_chars(&bytes, &mut out);
                            } else {
                                let decoded = utf8_lossy(&bytes);
                                let dchars = str_to_chars(decoded.as_str());
                                push_all_chars(&dchars, &mut out);
                            }
                            proof {
                                assert(out@ =~= pre + spec_charset_chars(charset@, bytes@));
                            }
                        },
                        None => {
                            let verbatim = collect_range(&chars, i, used);
                            push_all_chars(&verbatim, &mut out);
                            proof {
                                assert(verbatim@ =~= rem.take(used - i));
                                assert(out@ =~= pre + rem.take(used - i));
                            }
                        },
                    }
                    // elide whitespace between two consecutive encoded words
                    let mut j = used;
                    while j < chars.len() && (chars[j] == ' ' || chars[j] == '\t')
                        invariant
                            used <= j <= chars@.len(),
                            forall|k: int|
                                used <= k < j ==> (chars@[k] == ' ' || chars@[k] == '\t'),
                        decreases chars@.len() - j,
                    {
                        j = j + 1;
                    }
                    let next_is_word = j > used && chars.len() - j >= 2 && chars[j] == '='
                        && chars[j + 1] == '?';
                    proof {
                        let rest = rem.skip(used - i);
                        assert(rest =~= chars@.skip(used as int));
                        lemma_ws_run_chars(chars@, used as int, j as int);
                        assert(spec_ws_run(rest) == j - used);
                        if next_is_word {
                            assert(rest.skip(j - used) =~= chars@.skip(j as int));
                            assert(chars@.skip(j as int)[0] == chars@[j as int]);
                            assert(chars@.skip(j as int)[1] == chars@[j as int + 1]);
                            assert(spec_word_start(rest.skip(j - used)));
                            
                        }
                    }
                    if next_is_word {
                        proof {
                            assert(out@ + spec_rfc2047_decode(chars@.skip(j as int)) =~= pre
                                + spec_rfc2047_decode(rem));
                        }
                        i = j;
                    } else {
                        proof {
                            let rest = rem.skip(used - i);
                            let ws = spec_ws_run(rest);
                            if 0 < ws <= rest.len() && spec_word_start(rest.skip(ws)) {
                                assert(rest.skip(ws) =~= chars@.skip(j as int));
                                if j < chars@.len() {
                                    assert(chars@.skip(j as int)[0] == chars@[j as int]);
                                }
                                assert(false);
                            }
                            assert(out@ + spec_rfc2047_decode(chars@.skip(used as int)) =~= pre
                                + spec_rfc2047_decode(rem));
                        }
                        i = used;
                    }
                    handled = true;
                },
                None => {
                    handled = false;
                },
            }
        }
        if !handled {
            out.push(chars[i]);
            proof {
                assert(spec_rfc2047_decode(rem) == seq![rem[0]] + spec_rfc2047_decode(
                    rem.skip(1),
                ));
                assert(out@ + spec_rfc2047_decode(chars@.skip(i as int + 1)) =~= pre
                    + spec_rfc2047_decode(rem));
            }
            i = i + 1;
        }
    }
    proof {
        assert(chars@.skip(i as int) =~= Seq::<char>::empty());
        assert(out@ + Seq::<char>::empty() =~= out@);
    }
    chars_to_string(&out)
}

/// Decodes a raw header byte value: read as (lossy) UTF-8, then RFC 2047.
pub fn decode_header_value(value: &[u8]) -> (r: String)
    ensures
        r@ == spec_rfc2047_decode(spec_utf8_lossy(value@)),
{
    let mut v: Vec<u8> = Vec::new();
    let mut i: usize = 0;
    while i < value.len()
        invariant
            i <= value@.len(),
            v@ == value@.take(i as int),
        decreases value@.len() - i,
    {
        v.push(value[i]);
        proof {
            assert(value@.take(i as int + 1) =~= value@.take(i as int).push(value@[i as int]));
        }
        i = i + 1;
    }
    proof {
        assert(value@.take(i as int) =~= value@);
    }
    let raw = utf8_lossy(&v);
    decode_rfc2047(raw.as_str())
}

fn push_all_chars(src: &Vec<char>, out: &mut Vec<char>)
    ensures
        final(out)@ == old(out)@ + src@,
{
    let mut i: usize = 0;
    while i < src.len()
        invariant
            i <= src@.len(),
            out@ == old(out)@ + src@.take(i as int),
        decreases src@.len() - i,
    {
        out.push(src[i]);
        proof {
            assert(src@.take(i as int + 1) =~= src@.take(i as int).push(src@[i as int]));
            assert(out@ =~= old(out)@ + src@.take(i as int + 1));
        }
        i = i + 1;
    }
    proof {
        assert(src@.take(i as int) =~= src@);
    }
}

/// A scan that stops at the first non-blank measures the whitespace run.
proof fn lemma_ws_run_chars(chars: Seq<char>, from: int, to: int)
    requires
        0 <= from <= to <= chars.len(),
        forall|k: int| from <= k < to ==> (chars[k] == ' ' || chars[k] == '\t'),
        to < chars.len() ==> !(chars[to] == ' ' || chars[to] == '\t'),
    ensures
        spec_ws_run(chars.skip(from)) == to - from,
    decreases to - from,
{
    let s = chars.skip(from);
    if from == to {
        if s.len() > 0 {
            assert(s[0] == chars[from]);
        }
    } else {
        assert(s[0] == chars[from]);
        assert(s.skip(1) =~= chars.skip(from + 1));
        lemma_ws_run_chars(chars, from + 1, to);
    }
}

/// Parses the encoded word starting at `i`; `used` is the index just past its
/// closing `?=`.
fn parse_word_at(chars: &Vec<char>, i: usize) -> (r: Option<(Vec<char>, char, Vec<char>, usize)>)
    requires
        i + 1 < chars@.len(),
        chars@[i as int] == '=',
        chars@[i as int + 1] == '?',
    ensures
        match r {
            Some(w) => {
                &&& spec_parse_word(chars@.skip(i as int)) matches Some(sw) && sw.0 == w.0@ && sw.1
                    == w.1 && sw.2 == w.2@ && sw.3 == w.3 - i
                &&& i < w.3 <= chars@.len()
            },
            None => spec_parse_word(chars@.skip(i as int)) is None,
        },
{
    let n = chars.len();
    let ghost rem = chars@.skip(i as int);
    proof {
        assert(rem[0] == chars@[i as int]);
        assert(rem[1] == chars@[i as int + 1]);
        assert(spec_word_start(rem));
        assert(rem.skip(2) =~= chars@.skip(i as int + 2));
    }
    // charset runs to the next '?'
    let mut c: usize = i + 2;
    while c < chars.len() && chars[c] != '?'
        invariant
            i + 2 <= c <= chars@.len(),
            forall|k: int| i + 2 <= k < c ==> chars@[k] != '?',
        decreases chars@.len() - c,
    {
        c = c + 1;
    }
    proof {
        assert forall|k: int| 0 <= k < c - i - 2 implies (#[trigger] chars@.skip(i as int + 2)[k]) != '?' by {
            assert(chars@.skip(i as int + 2)[k] == chars@[i as int + 2 + k]);
        }
        if c < chars@.len() {
            assert(chars@.skip(i as int + 2)[c - i - 2] == chars@[c as int]);
            crate::textutil::lemma_find_some(chars@.skip(i as int + 2), '?', c - i - 2);
        } else {
            crate::textutil::lemma_find_none(chars@.skip(i as int + 2), '?');
        }
    }
    if c >= chars.len() {
        return None;
    }
    let charset = collect_range(chars, i + 2, c);
    proof {
        assert(charset@ =~= rem.skip(2).take(c - i - 2));
    }
    // encoding letter, then a '?'
    let p = c + 1;
    proof {
        assert(rem.skip(2 + (c - i - 2) + 1) =~= chars@.skip(p as int));
    }
    if n - p < 2 || chars[p + 1] != '?' {
        proof {
            let tail = chars@.skip(p as int);
            if n - p >= 2 {
                assert(tail[1] == chars@[p as int + 1]);
            }
            assert(!(tail.len() >= 2 && tail[1] == '?'));
        }
        return None;
    }
    let enc = chars[p];
    proof {
        assert(chars@.skip(p as int)[0] == chars@[p as int]);
        assert(chars@.skip(p as int)[1] == chars@[p as int + 1]);
    }
    // payload runs to the closing `?=`
    let mut t: usize = p + 2;
    while n - t >= 2 && !(chars[t] == '?' && chars[t + 1] == '=')
        invariant
            n == chars@.len(),
            p + 2 <= t <= chars@.len(),
            forall|k: int| p + 2 <= k < t ==> !((#[trigger] chars@[k]) == '?' && chars@[k + 1] == '='),
        decreases chars@.len() - t,
    {
        t = t + 1;
    }
    proof {
        assert(chars@.skip(p as int).skip(2) =~= chars@.skip(p as int + 2));
    }
    if n - t < 2 {
        proof {
            let u = chars@.skip(p as int + 2);
            assert forall|k: int| 0 <= k < u.len() - 1 implies !((#[trigger] u[k]) == '?' && u[k + 1]
                == '=') by {
                assert(u[k] == chars@[p + 2 + k]);
                assert(u[k + 1] == chars@[p + 2 + k + 1]);
            }
            lemma_find_term_none(u);
        }
        return None;
    }
    proof {
        let u = chars@.skip(p as int + 2);
        assert forall|k: int| 0 <= k < t - p - 2 implies !((#[trigger] u[k]) == '?' && u[k + 1]
            == '=') by {
            assert(u[k] == chars@[p + 2 + k]);
            assert(u[k + 1] == chars@[p + 2 + k + 1]);
        }
        assert(u[t - p - 2] == chars@[t as int]);
        assert(u[t - p - 2 + 1] == chars@[t as int + 1]);
        lemma_find_term_some(u, t - p - 2);
    }
    let text = collect_range(chars, p + 2, t);
    proof {
        assert(text@ =~= chars@.skip(p as int + 2).take(t - p - 2));
    }
    Some((charset, enc, text, t + 2))
}

} // verus!
