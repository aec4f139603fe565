//! Base64, in the standard alphabet with padding and in the IMAP-modified
//! form that mailbox-name encoding uses (`,` instead of `/`, no padding).

use vstd::prelude::*;

use crate::textutil::{chars_to_string, str_to_chars};

verus! {

/// The alphabet character for a 6-bit value; `imap` selects `,` over `/`.
pub open spec fn spec_b64_char(v: int, imap: bool) -> char {
    if v < 26 {
        ((65 + v) as u32) as char
    } else if v < 52 {
        ((97 + (v - 26)) as u32) as char
    } else if v < 62 {
        ((48 + (v - 52)) as u32) as char
    } else if v == 62 {
        '+'
    } else if imap {
        ','
    } else {
        '/'
    }
}

/// The 6-bit value of an alphabet character; 64 marks a character outside the
/// alphabet.
pub open spec fn spec_b64_val(c: char, imap: bool) -> int {
    let u = c as u32;
    if 65 <= u <= 90 {
        u - 65
    } else if 97 <= u <= 122 {
        u - 97 + 26
    } else if 48 <= u <= 57 {
        u - 48 + 52
    } else if c == '+' {
        62
    } else if imap && c == ',' {
        63
    } else if !imap && c == '/' {
        63
    } else {
        64
    }
}

pub proof fn lemma_b64_char_val(v: int, imap: bool)
    requires
        0 <= v < 64,
    ensures
        spec_b64_val(spec_b64_char(v, imap), imap) == v,
{
}

/// The unpadded encoding: each 3-byte group becomes 4 characters, a 2-byte
/// tail 3 characters, a 1-byte tail 2 characters.
pub open spec fn spec_b64_encode_raw(bytes: Seq<u8>, imap: bool) -> Seq<char>
    decreases bytes.len(),
{
    if bytes.len() == 0 {
        Seq::empty()
    } else if bytes.len() == 1 {
        let b0 = bytes[0] as int;
        seq![spec_b64_char(b0 / 4, imap), spec_b64_char(b0 % 4 * 16, imap)]
    } else if bytes.len() == 2 {
        let b0 = bytes[0] as int;
        let b1 = bytes[1] as int;
        seq![
            spec_b64_char(b0 / 4, imap),
            spec_b64_char(b0 % 4 * 16 + b1 / 16, imap),
            spec_b64_char(b1 % 16 * 4, imap),
        ]
    } else {
        let b0 = bytes[0] as int;
        let b1 = bytes[1] as int;
        let b2 = bytes[2] as int;
        seq![
            spec_b64_char(b0 / 4, imap),
            spec_b64_char(b0 % 4 * 16 + b1 / 16, imap),
            spec_b64_char(b1 % 16 * 4 + b2 / 64, imap),
            spec_b64_char(b2 % 64, imap),
        ] + spec_b64_encode_raw(bytes.skip(3), imap)
    }
}

/// The `=` padding that the standard form appends.
pub open spec fn spec_b64_padding(n: int) -> Seq<char> {
    if n % 3 == 1 {
        seq!['=', '=']
    } else if n % 3 == 2 {
        seq!['=']
    } else {
        Seq::empty()
    }
}

/// The standard padded encoding.
pub open spec fn spec_b64_encode_std(bytes: Seq<u8>) -> Seq<char> {
    spec_b64_encode_raw(bytes, false) + spec_b64_padding(bytes.len() as int)
}

/// Decodes an unpadded character stream; strict about leftover bits, and
/// `None` on any character outside the alphabet or an impossible length.
pub open spec fn spec_b64_decode_raw(s: Seq<char>, imap: bool) -> Option<Seq<u8>>
    decreases s.len(),
{
    if s.len() == 0 {
        Some(Seq::empty())
    } else if s.len() == 1 {
        None
    } else if s.len() == 2 {
        let v0 = spec_b64_val(s[0], imap);
        let v1 = spec_b64_val(s[1], imap);
        if v0 < 64 && v1 < 64 && v1 % 16 == 0 {
            Some(seq![(v0 * 4 + v1 / 16) as u8])
        } else {
            None
        }
    } else if s.len() == 3 {
        let v0 = spec_b64_val(s[0], imap);
        let v1 = spec_b64_val(s[1], imap);
        let v2 = spec_b64_val(s[2], imap);
        if v0 < 64 && v1 < 64 && v2 < 64 && v2 % 4 == 0 {
            Some(seq![(v0 * 4 + v1 / 16) as u8, (v1 % 16 * 16 + v2 / 4) as u8])
        } else {
            None
        }
    } else {
        let v0 = spec_b64_val(s[0], imap);
        let v1 = spec_b64_val(s[1], imap);
        let v2 = spec_b64_val(s[2], imap);
        let v3 = spec_b64_val(s[3], imap);
        if v0 < 64 && v1 < 64 && v2 < 64 && v3 < 64 {
            match spec_b64_decode_raw(s.skip(4), imap) {
                Some(r) => Some(
                    seq![
                        (v0 * 4 + v1 / 16) as u8,
                        (v1 % 16 * 16 + v2 / 4) as u8,
                        (v2 % 4 * 64 + v3) as u8,
                    ] + r,
                ),
                None => None,
            }
        } else {
            None
        }
    }
}

/// Decodes the standard padded form: the length must be a multiple of four,
/// with up to two `=` at the end and nowhere else.
pub open spec fn spec_b64_decode_std(s: Seq<char>) -> Option<Seq<u8>> {
    if s.len() == 0 {
        Some(Seq::empty())
    } else if s.len() % 4 != 0 {
        None
    } else if s.len() >= 2 && s[s.len() - 1] == '=' && s[s.len() - 2] == '=' {
        spec_b64_decode_raw(s.take(s.len() - 2), false)
    } else if s[s.len() - 1] == '=' {
        spec_b64_decode_raw(s.take(s.len() - 1), false)
    } else {
        spec_b64_decode_raw(s, false)
    }
}

fn b64_char(v: u8, imap: bool) -> (c: char)
    requires
        v < 64,
    ensures
        c == spec_b64_char(v as int, imap),
{
    if v < 26 {
        (65 + v) as char
    } else if v < 52 {
        (97 + (v - 26)) as char
    } else if v < 62 {
        (48 + (v - 52)) as char
    } else if v == 62 {
        '+'
    } else if imap {
        ','
    } else {
        '/'
    }
}

fn b64_val(c: char, imap: bool) -> (v: u8)
    ensures
        v == spec_b64_val(c, imap),
{
    let u = c as u32;
    if 65 <= u && u <= 90 {
        (u - 65) as u8
    } else if 97 <= u && u <= 122 {
        (u - 97 + 26) as u8
    } else if 48 <= u && u <= 57 {
        (u - 48 + 52) as u8
    } else if c == '+' {
        62
    } else if imap && c == ',' {
        63
    } else if !imap && c == '/' {
        63
    } else {
        64
    }
}

/// Appends the unpadded encoding of `bytes` to `out`.
fn push_b64_raw(bytes: &[u8], imap: bool, out: &mut Vec<char>)
    ensures
        final(out)@ == old(out)@ + spec_b64_encode_raw(bytes@, imap),
    decreases bytes@.len(),
{
    let ghost pre = out@;
    if bytes.len() == 0 {
        proof {
            assert(out@ =~= pre + spec_b64_encode_raw(bytes@, imap));
        }
    } else if bytes.len() == 1 {
        let b0 = bytes[0];
        out.push(b64_char(b0 / 4, imap));
        out.push(b64_char(b0 % 4 * 16, imap));
        proof {
            assert(out@ =~= pre + spec_b64_encode_raw(bytes@, imap));
        }
    } else if bytes.len() == 2 {
        let b0 = bytes[0];
        let b1 = bytes[1];
        out.push(b64_char(b0 / 4, imap));
        out.push(b64_char(b0 % 4 * 16 + b1 / 16, imap));
        out.push(b64_char(b1 % 16 * 4, imap));
        proof {
            assert(out@ =~= pre + spec_b64_encode_raw(bytes@, imap));
        }
    } else {
        let b0 = bytes[0];
        let b1 = bytes[1];
        let b2 = bytes[2];
        out.push(b64_char(b0 / 4, imap));
        out.push(b64_char(b0 % 4 * 16 + b1 / 16, imap));
        out.push(b64_char(b1 % 16 * 4 + b2 / 64, imap));
        out.push(b64_char(b2 % 64, imap));
        let rest = slice_skip3(bytes);
        push_b64_raw(rest, imap, out);
        proof {
            assert(rest@ =~= bytes@.skip(3));
            assert(out@ =~= pre + spec_b64_encode_raw(bytes@, imap));
        }
    }
}

fn slice_skip3(bytes: &[u8]) -> (r: &[u8])
    requires
        bytes@.len() >= 3,
    ensures
        r@ == bytes@.skip(3),
{
    let (_, rest) = bytes.split_at(3);
    proof {
        assert(rest@ =~= bytes@.skip(3));
    }
    rest
}

/// The standard padded base64 form of `bytes`.
pub fn b64_encode_std(bytes: &[u8]) -> (r: String)
    ensures
        r@ == spec_b64_encode_std(bytes@),
{
    let mut out: Vec<char> = Vec::new();
    push_b64_raw(bytes, false, &mut out);
    if bytes.len() % 3 == 1 {
        out.push('=');
        out.push('=');
    } else if bytes.len() % 3 == 2 {
        out.push('=');
    }
    proof {
        assert(out@ =~= spec_b64_encode_std(bytes@));
    }
    chars_to_string(&out)
}

/// The IMAP-modified unpadded base64 form of `bytes` (`,` instead of `/`).
pub fn b64_encode_imap(bytes: &[u8]) -> (r: Vec<char>)
    ensures
        r@ == spec_b64_encode_raw(bytes@, true),
{
    let mut out: Vec<char> = Vec::new();
    push_b64_raw(bytes, true, &mut out);
    out
}

/// Decodes an unpadded base64 character stream.
pub fn b64_decode_raw(s: &[char], imap: bool) -> (r: Option<Vec<u8>>)
    ensures
        match r {
            Some(v) => spec_b64_decode_raw(s@, imap) == Some(v@),
            None => spec_b64_decode_raw(s@, imap) is None,
        },
{
    let mut out: Vec<u8> = Vec::new();
    let mut i: usize = 0;
    proof {
        assert(s@.skip(0) =~= s@);
    }
    while s.len() - i >= 4
        invariant
            i <= s@.len(),
            match spec_b64_decode_raw(s@.skip(i as int), imap) {
                Some(rest) => spec_b64_decode_raw(s@, imap) == Some(out@ + rest),
                None => spec_b64_decode_raw(s@, imap) is None,
            },
        decreases s@.len() - i,
    {
        let v0 = b64_val(s[i], imap);
        let v1 = b64_val(s[i + 1], imap);
        let v2 = b64_val(s[i + 2], imap);
        let v3 = b64_val(s[i + 3], imap);
        proof {
            assert(s@.skip(i as int).len() >= 4);
            assert(s@.skip(i as int)[0] == s@[i as int]);
            assert(s@.skip(i as int)[1] == s@[i as int + 1]);
            assert(s@.skip(i as int)[2] == s@[i as int + 2]);
            assert(s@.skip(i as int)[3] == s@[i as int + 3]);
            assert(s@.skip(i as int).skip(4) =~= s@.skip(i as int + 4));
        }
        if v0 >= 64 || v1 >= 64 || v2 >= 64 || v3 >= 64 {
            return None;
        }
        let ghost out_pre = out@;
        out.push(v0 * 4 + v1 / 16);
        out.push(v1 % 16 * 16 + v2 / 4);
        out.push(v2 % 4 * 64 + v3);
        proof {
            let whole = spec_b64_decode_raw(s@.skip(i as int), imap);
            let rest = spec_b64_decode_raw(s@.skip(i as int + 4), imap);
            match rest {
                Some(rr) => {
                    assert(whole == Some(
                        seq![
                            (v0 * 4 + v1 / 16) as u8,
                            (v1 % 16 * 16 + v2 / 4) as u8,
                            (v2 % 4 * 64 + v3) as u8,
                        ] + rr,
                    ));
                    assert(out@ + rr =~= out_pre + (seq![
                        (v0 * 4 + v1 / 16) as u8,
                        (v1 % 16 * 16 + v2 / 4) as u8,
                        (v2 % 4 * 64 + v3) as u8,
                    ] + rr));
                },
                None => {},
            }
        }
        i = i + 4;
    }
    let rem = s.len() - i;
    proof {
        assert(s@.skip(i as int).len() == rem);
    }
    if rem == 0 {
        proof {
            assert(spec_b64_decode_raw(s@.skip(i as int), imap) == Some(Seq::<u8>::empty()));
            assert(out@ + Seq::<u8>::empty() =~= out@);
        }
        Some(out)
    } else if rem == 1 {
        None
    } else if rem == 2 {
        let v0 = b64_val(s[i], imap);
        let v1 = b64_val(s[i + 1], imap);
        proof {
            assert(s@.skip(i as int)[0] == s@[i as int]);
            assert(s@.skip(i as int)[1] == s@[i as int + 1]);
        }
        if v0 < 64 && v1 < 64 && v1 % 16 == 0 {
            let ghost out_pre = out@;
            out.push(v0 * 4 + v1 / 16);
            proof {
                let rest = spec_b64_decode_raw(s@.skip(i as int), imap);
                assert(rest == Some(seq![(v0 * 4 + v1 / 16) as u8]));
                assert(out@ =~= out_pre + seq![(v0 * 4 + v1 / 16) as u8]);
            }
            Some(out)
        } else {
            None
        }
    } else {
        let v0 = b64_val(s[i], imap);
        let v1 = b64_val(s[i + 1], imap);
        let v2 = b64_val(s[i + 2], imap);
        proof {
            assert(s@.skip(i as int)[0] == s@[i as int]);
            assert(s@.skip(i as int)[1] == s@[i as int + 1]);
            assert(s@.skip(i as int)[2] == s@[i as int + 2]);
        }
        if v0 < 64 && v1 < 64 && v2 < 64 && v2 % 4 == 0 {
            let ghost out_pre = out@;
            out.push(v0 * 4 + v1 / 16);
            out.push(v1 % 16 * 16 + v2 / 4);
            proof {
                let rest = spec_b64_decode_raw(s@.skip(i as int), imap);
                assert(rest == Some(seq![(v0 * 4 + v1 / 16) as u8, (v1 % 16 * 16 + v2 / 4) as u8]));
                assert(out@ =~= out_pre + seq![
                    (v0 * 4 + v1 / 16) as u8,
                    (v1 % 16 * 16 + v2 / 4) as u8,
                ]);
            }
            Some(out)
        } else {
            None
        }
    }
}

/// Decodes the standard padded base64 form from characters.
pub fn b64_decode_std_chars(chars: &[char]) -> (r: Option<Vec<u8>>)
    ensures
        match r {
            Some(v) => spec_b64_decode_std(chars@) == Some(v@),
            None => spec_b64_decode_std(chars@) is None,
        },
{
    if chars.len() == 0 {
        return Some(Vec::new());
    }
    if chars.len() % 4 != 0 {
        return None;
    }
    let n = chars.len();
    let body_len = if chars[n - 1] == '=' && chars[n - 2] == '=' {
        n - 2
    } else if chars[n - 1] == '=' {
        n - 1
    } else {
        n
    };
    let (body, _) = chars.split_at(body_len);
    proof {
        assert(body@ =~= chars@.take(body_len as int));
        if chars@[n - 1] == '=' && chars@[n - 2] == '=' {
            assert(spec_b64_decode_std(chars@) == spec_b64_decode_raw(chars@.take(n - 2), false));
        } else if chars@[n - 1] == '=' {
            assert(spec_b64_decode_std(chars@) == spec_b64_decode_raw(chars@.take(n - 1), false));
        } else {
            assert(chars@.take(n as int) =~= chars@);
            assert(spec_b64_decode_std(chars@) == spec_b64_decode_raw(chars@, false));
        }
        assert(spec_b64_decode_std(chars@) == spec_b64_decode_raw(body@, false));
    }
    b64_decode_raw(body, false)
}

/// Decodes the standard padded base64 form.
pub fn b64_decode_std(s: &str) -> (r: Option<Vec<u8>>)
    ensures
        match r {
            Some(v) => spec_b64_decode_std(s@) == Some(v@),
            None => spec_b64_decode_std(s@) is None,
        },
{
    let chars = str_to_chars(s);
    b64_decode_std_chars(chars.as_slice())
}


proof fn lemma_b64_char_in_alphabet(v: int, imap: bool)
    requires
        0 <= v < 64,
    ensures
        spec_b64_char(v, imap) != '=',
        spec_b64_val(spec_b64_char(v, imap), imap) < 64,
{
    lemma_b64_char_val(v, imap);
}

/// Unpadded encoding and decoding are inverse.
proof fn lemma_b64_raw_roundtrip(bytes: Seq<u8>, imap: bool)
    ensures
        spec_b64_decode_raw(spec_b64_encode_raw(bytes, imap), imap) == Some(bytes),
    decreases bytes.len(),
{
    let s = spec_b64_encode_raw(bytes, imap);
    if bytes.len() == 0 {
        assert(spec_b64_decode_raw(s, imap) =~= Some(Seq::<u8>::empty()));
        assert(Some(Seq::<u8>::empty()) == Some(bytes)) by {
            assert(bytes =~= Seq::<u8>::empty());
        }
    } else if bytes.len() == 1 {
        let b0 = bytes[0] as int;
        lemma_b64_char_val(b0 / 4, imap);
        lemma_b64_char_val(b0 % 4 * 16, imap);
        assert(s.len() == 2);
        let v0 = spec_b64_val(s[0], imap);
        let v1 = spec_b64_val(s[1], imap);
        assert(v0 == b0 / 4);
        assert(v1 == b0 % 4 * 16);
        assert(v1 % 16 == 0) by (nonlinear_arith)
            requires
                v1 == b0 % 4 * 16,
                0 <= b0 % 4 < 4,
        ;
        assert(v0 * 4 + v1 / 16 == b0) by (nonlinear_arith)
            requires
                v0 == b0 / 4,
                v1 == b0 % 4 * 16,
                0 <= b0 < 256,
        ;
        assert(spec_b64_decode_raw(s, imap) =~= Some(seq![(v0 * 4 + v1 / 16) as u8]));
        assert(seq![(v0 * 4 + v1 / 16) as u8] =~= bytes);
    } else if bytes.len() == 2 {
        let b0 = bytes[0] as int;
        let b1 = bytes[1] as int;
        lemma_b64_char_val(b0 / 4, imap);
        lemma_b64_char_val(b0 % 4 * 16 + b1 / 16, imap);
        lemma_b64_char_val(b1 % 16 * 4, imap);
        assert(s.len() == 3);
        let v0 = spec_b64_val(s[0], imap);
        let v1 = spec_b64_val(s[1], imap);
        let v2 = spec_b64_val(s[2], imap);
        assert(v2 % 4 == 0) by (nonlinear_arith)
            requires
                v2 == b1 % 16 * 4,
                0 <= b1 % 16 < 16,
        ;
        assert(v0 * 4 + v1 / 16 == b0 && v1 % 16 * 16 + v2 / 4 == b1) by (nonlinear_arith)
            requires
                v0 == b0 / 4,
                v1 == b0 % 4 * 16 + b1 / 16,
                v2 == b1 % 16 * 4,
                0 <= b0 < 256,
                0 <= b1 < 256,
        ;
        assert(spec_b64_decode_raw(s, imap) =~= Some(
            seq![(v0 * 4 + v1 / 16) as u8, (v1 % 16 * 16 + v2 / 4) as u8],
        ));
        assert(seq![(v0 * 4 + v1 / 16) as u8, (v1 % 16 * 16 + v2 / 4) as u8] =~= bytes);
    } else {
        let b0 = bytes[0] as int;
        let b1 = bytes[1] as int;
        let b2 = bytes[2] as int;
        lemma_b64_char_val(b0 / 4, imap);
        lemma_b64_char_val(b0 % 4 * 16 + b1 / 16, imap);
        lemma_b64_char_val(b1 % 16 * 4 + b2 / 64, imap);
        lemma_b64_char_val(b2 % 64, imap);
        lemma_b64_raw_roundtrip(bytes.skip(3), imap);
        let rest = spec_b64_encode_raw(bytes.skip(3), imap);
        assert(s =~= seq![
            spec_b64_char(b0 / 4, imap),
            spec_b64_char(b0 % 4 * 16 + b1 / 16, imap),
            spec_b64_char(b1 % 16 * 4 + b2 / 64, imap),
            spec_b64_char(b2 % 64, imap),
        ] + rest);
        assert(s.len() >= 4);
        let v0 = spec_b64_val(s[0], imap);
        let v1 = spec_b64_val(s[1], imap);
        let v2 = spec_b64_val(s[2], imap);
        let v3 = spec_b64_val(s[3], imap);
        assert(s.skip(4) =~= rest);
        assert(v0 * 4 + v1 / 16 == b0 && v1 % 16 * 16 + v2 / 4 == b1 && v2 % 4 * 64 + v3 == b2)
            by (nonlinear_arith)
            requires
                v0 == b0 / 4,
                v1 == b0 % 4 * 16 + b1 / 16,
                v2 == b1 % 16 * 4 + b2 / 64,
                v3 == b2 % 64,
                0 <= b0 < 256,
                0 <= b1 < 256,
                0 <= b2 < 256,
        ;
        assert(spec_b64_decode_raw(s, imap) =~= Some(
            seq![(v0 * 4 + v1 / 16) as u8, (v1 % 16 * 16 + v2 / 4) as u8, (v2 % 4 * 64 + v3) as u8]
                + bytes.skip(3),
        ));
        assert(seq![
            (v0 * 4 + v1 / 16) as u8,
            (v1 % 16 * 16 + v2 / 4) as u8,
            (v2 % 4 * 64 + v3) as u8,
        ] + bytes.skip(3) =~= bytes);
    }
}

/// The unpadded encoding never emits `=` and its length follows the input's.
proof fn lemma_b64_raw_shape(bytes: Seq<u8>, imap: bool)
    ensures
        spec_b64_encode_raw(bytes, imap).len() == 4 * (bytes.len() as int / 3) + (if bytes.len()
            % 3 == 0 {
            0int
        } else if bytes.len() % 3 == 1 {
            2int
        } else {
            3int
        }),
        forall|i: int|
            0 <= i < spec_b64_encode_raw(bytes, imap).len() ==> (#[trigger] spec_b64_encode_raw(
                bytes,
                imap,
            )[i]) != '=',
    decreases bytes.len(),
{
    let s = spec_b64_encode_raw(bytes, imap);
    if bytes.len() == 0 {
    } else if bytes.len() == 1 {
        lemma_b64_char_in_alphabet(bytes[0] as int / 4, imap);
        lemma_b64_char_in_alphabet(bytes[0] as int % 4 * 16, imap);
    } else if bytes.len() == 2 {
        let b0 = bytes[0] as int;
        let b1 = bytes[1] as int;
        lemma_b64_char_in_alphabet(b0 / 4, imap);
        lemma_b64_char_in_alphabet(b0 % 4 * 16 + b1 / 16, imap);
        lemma_b64_char_in_alphabet(b1 % 16 * 4, imap);
    } else {
        let b0 = bytes[0] as int;
        let b1 = bytes[1] as int;
        let b2 = bytes[2] as int;
        lemma_b64_char_in_alphabet(b0 / 4, imap);
        lemma_b64_char_in_alphabet(b0 % 4 * 16 + b1 / 16, imap);
        lemma_b64_char_in_alphabet(b1 % 16 * 4 + b2 / 64, imap);
        lemma_b64_char_in_alphabet(b2 % 64, imap);
        lemma_b64_raw_shape(bytes.skip(3), imap);
        let rest = spec_b64_encode_raw(bytes.skip(3), imap);
        assert(bytes.skip(3).len() % 3 == bytes.len() % 3) by (nonlinear_arith)
            requires
                bytes.len() >= 3,
                bytes.skip(3).len() == bytes.len() - 3,
        ;
        assert forall|i: int| 0 <= i < s.len() implies (#[trigger] s[i]) != '=' by {
            if i >= 4 {
                assert(s[i] == rest[i - 4]);
            }
        }
    }
}

/// Round trip: decoding the standard padded encoding of any bytes gives the
/// bytes back.
pub proof fn lemma_b64_std_roundtrip(bytes: Seq<u8>)
    ensures
        spec_b64_decode_std(spec_b64_encode_std(bytes)) == Some(bytes),
{
    let raw = spec_b64_encode_raw(bytes, false);
    let s = spec_b64_encode_std(bytes);
    lemma_b64_raw_shape(bytes, false);
    lemma_b64_raw_roundtrip(bytes, false);
    if bytes.len() == 0 {
        assert(s.len() == 0);
        assert(bytes =~= Seq::<u8>::empty());
    } else if bytes.len() % 3 == 0 {
        assert(spec_b64_padding(bytes.len() as int) =~= Seq::<char>::empty());
        assert(s =~= raw);
        assert(s.len() % 4 == 0) by (nonlinear_arith)
            requires
                s.len() == 4 * (bytes.len() as int / 3),
        ;
        assert(s.len() >= 4);
        assert(s[s.len() - 1] != '=');
    } else if bytes.len() % 3 == 1 {
        assert(s =~= raw + seq!['=', '=']);
        assert(s.len() == raw.len() + 2);
        assert(s.len() % 4 == 0) by (nonlinear_arith)
            requires
                raw.len() == 4 * (bytes.len() as int / 3) + 2,
                s.len() == raw.len() + 2,
        ;
        assert(s[s.len() - 1] == '=');
        assert(s[s.len() - 2] == '=');
        assert(s.take(s.len() - 2) =~= raw);
        assert(s.len() > 0);
    } else {
        assert(s =~= raw + seq!['=']);
        assert(s.len() == raw.len() + 1);
        assert(s.len() % 4 == 0) by (nonlinear_arith)
            requires
                raw.len() == 4 * (bytes.len() as int / 3) + 3,
                s.len() == raw.len() + 1,
        ;
        assert(s[s.len() - 1] == '=');
        assert(raw.len() >= 3);
        assert(s[s.len() - 2] == raw[raw.len() - 1]);
        assert(s[s.len() - 2] != '=');
        assert(s.take(s.len() - 1) =~= raw);
    }
}

} // verus!
