//! Modified UTF-7, the IMAP mailbox-name encoding: printable ASCII passes
//! through, `&` becomes `&-`, and runs of other characters become
//! `&`-escaped, `-`-terminated blocks of modified base64 over UTF-16BE.

use vstd::prelude::*;

use crate::b64::{b64_decode_raw, b64_encode_imap, spec_b64_decode_raw, spec_b64_encode_raw};
use crate::textutil::{chars_to_string, spec_find, str_to_chars, find_char, lemma_find_some,
    lemma_find_none};

verus! {

/// Relies on char::from_u32: every code point below 0x110000 that is not a
/// surrogate names a char, and none other does.
#[verifier::external_body]
pub fn char_from_u32(u: u32) -> (r: Option<char>)
    ensures
        r matches Some(c) ==> c as u32 == u,
        r is None ==> (0xD800 <= u < 0xE000 || u >= 0x110000),
{
    char::from_u32(u)
}

/// The UTF-16 code units of one character: one unit below 0x10000, else a
/// surrogate pair.
pub open spec fn spec_utf16_units(c: char) -> Seq<u16> {
    let u = c as u32;
    if u < 0x10000 {
        seq![u as u16]
    } else {
        seq![
            (0xD800 + (u - 0x10000) / 0x400) as u16,
            (0xDC00 + (u - 0x10000) % 0x400) as u16,
        ]
    }
}

/// The UTF-16 code units of a string.
pub open spec fn spec_utf16_encode(s: Seq<char>) -> Seq<u16>
    decreases s.len(),
{
    if s.len() == 0 {
        Seq::empty()
    } else {
        spec_utf16_encode(s.drop_last()) + spec_utf16_units(s.last())
    }
}

/// Big-endian bytes of a code-unit sequence.
pub open spec fn spec_be_bytes(units: Seq<u16>) -> Seq<u8>
    decreases units.len(),
{
    if units.len() == 0 {
        Seq::empty()
    } else {
        spec_be_bytes(units.drop_last()) + seq![
            (units.last() / 256) as u8,
            (units.last() % 256) as u8,
        ]
    }
}

/// Code units read from big-endian byte pairs; a trailing odd byte is
/// dropped, as the wire decoder does.
pub open spec fn spec_units_of_bytes(bytes: Seq<u8>) -> Seq<u16>
    decreases bytes.len(),
{
    if bytes.len() < 2 {
        Seq::empty()
    } else {
        seq![(bytes[0] as int * 256 + bytes[1] as int) as u16] + spec_units_of_bytes(
            bytes.skip(2),
        )
    }
}

pub open spec fn spec_is_high_surrogate(u: u16) -> bool {
    0xD800 <= u < 0xDC00
}

pub open spec fn spec_is_low_surrogate(u: u16) -> bool {
    0xDC00 <= u < 0xE000
}

/// Characters read from UTF-16 code units; `None` on an unpaired surrogate.
pub open spec fn spec_utf16_decode(units: Seq<u16>) -> Option<Seq<char>>
    decreases units.len(),
{
    if units.len() == 0 {
        Some(Seq::empty())
    } else if spec_is_high_surrogate(units[0]) {
        if units.len() >= 2 && spec_is_low_surrogate(units[1]) {
            let u: u32 = (0x10000 + (units[0] - 0xD800) * 0x400 + (units[1] - 0xDC00)) as u32;
            match spec_utf16_decode(units.skip(2)) {
                Some(r) => Some(seq![u as char] + r),
                None => None,
            }
        } else {
            None
        }
    } else if spec_is_low_surrogate(units[0]) {
        None
    } else {
        match spec_utf16_decode(units.skip(1)) {
            Some(r) => Some(seq![units[0] as u32 as char] + r),
            None => None,
        }
    }
}

/// Printable ASCII, which passes through unencoded.
pub open spec fn spec_printable(c: char) -> bool {
    0x20 <= (c as u32) <= 0x7E
}

/// The wire form of one run of characters that need encoding.
pub open spec fn spec_escape_block(run: Seq<char>) -> Seq<char> {
    seq!['&'] + spec_b64_encode_raw(spec_be_bytes(spec_utf16_encode(run)), true) + seq!['-']
}

/// One step of the encoder: `acc` is the output so far and the pending run of
/// characters awaiting an escape block.
pub open spec fn spec_utf7_step(acc: (Seq<char>, Seq<char>), c: char) -> (Seq<char>, Seq<char>) {
    let flushed: Seq<char> = if acc.1.len() == 0 {
        acc.0
    } else {
        acc.0 + spec_escape_block(acc.1)
    };
    if c == '&' {
        (flushed + seq!['&', '-'], Seq::empty())
    } else if spec_printable(c) {
        (flushed + seq![c], Seq::empty())
    } else {
        (acc.0, acc.1.push(c))
    }
}

pub open spec fn spec_utf7_fold(s: Seq<char>) -> (Seq<char>, Seq<char>)
    decreases s.len(),
{
    if s.len() == 0 {
        (Seq::empty(), Seq::empty())
    } else {
        spec_utf7_step(spec_utf7_fold(s.drop_last()), s.last())
    }
}

/// The Modified UTF-7 wire form of a mailbox name.
pub open spec fn spec_utf7_encode(s: Seq<char>) -> Seq<char> {
    let acc = spec_utf7_fold(s);
    if acc.1.len() == 0 {
        acc.0
    } else {
        acc.0 + spec_escape_block(acc.1)
    }
}

/// One escape block's decoding: modified base64 to UTF-16BE to characters; a
/// malformed block passes through verbatim, wrapped back in `&…-`.
pub open spec fn spec_block_decode(encoded: Seq<char>) -> Seq<char> {
    match spec_b64_decode_raw(encoded, true) {
        Some(bytes) => match spec_utf16_decode(spec_units_of_bytes(bytes)) {
            Some(chars) => chars,
            None => seq!['&'] + encoded + seq!['-'],
        },
        None => seq!['&'] + encoded + seq!['-'],
    }
}

/// The decoded form of a Modified UTF-7 mailbox name. `&-` is a literal `&`;
/// an unterminated escape is decoded as if terminated.
pub open spec fn spec_utf7_decode(s: Seq<char>) -> Seq<char>
    decreases s.len(),
{
    if s.len() == 0 {
        Seq::empty()
    } else if s[0] != '&' {
        seq![s[0]] + spec_utf7_decode(s.skip(1))
    } else {
        let rest = s.skip(1);
        match spec_find(rest, '-') {
            None => spec_block_decode(rest),
            Some(k) => if k == 0 {
                seq!['&'] + spec_utf7_decode(rest.skip(1))
            } else if 0 < k < rest.len() {
                spec_block_decode(rest.take(k)) + spec_utf7_decode(rest.skip(k + 1))
            } else {
                // spec_find never returns an out-of-range index
                Seq::empty()
            },
        }
    }
}

fn utf16_units(c: char, out: &mut Vec<u16>)
    ensures
        final(out)@ == old(out)@ + spec_utf16_units(c),
{
    let u = c as u32;
    if u < 0x10000 {
        out.push(u as u16);
    } else {
        out.push((0xD800 + (u - 0x10000) / 0x400) as u16);
        out.push((0xDC00 + (u - 0x10000) % 0x400) as u16);
    }
    proof {
        assert(out@ =~= old(out)@ + spec_utf16_units(c));
    }
}

fn utf16_of_chars(run: &Vec<char>) -> (r: Vec<u16>)
    ensures
        r@ == spec_utf16_encode(run@),
{
    let mut out: Vec<u16> = Vec::new();
    let mut i: usize = 0;
    proof {
        assert(out@ =~= spec_utf16_encode(run@.take(0)));
    }
    while i < run.len()
        invariant
            i <= run@.len(),
            out@ == spec_utf16_encode(run@.take(i as int)),
        decreases run@.len() - i,
    {
        utf16_units(run[i], &mut out);
        proof {
            assert(run@.take(i as int + 1).drop_last() =~= run@.take(i as int));
            assert(run@.take(i as int + 1).last() == run@[i as int]);
        }
        i = i + 1;
    }
    proof {
        assert(run@.take(i as int) =~= run@);
    }
    out
}

fn be_bytes(units: &Vec<u16>) -> (r: Vec<u8>)
    ensures
        r@ == spec_be_bytes(units@),
{
    let mut out: Vec<u8> = Vec::new();
    let mut i: usize = 0;
    proof {
        assert(out@ =~= spec_be_bytes(units@.take(0)));
    }
    while i < units.len()
        invariant
            i <= units@.len(),
            out@ == spec_be_bytes(units@.take(i as int)),
        decreases units@.len() - i,
    {
        let u = units[i];
        out.push((u / 256) as u8);
        out.push((u % 256) as u8);
        proof {
            assert(units@.take(i as int + 1).drop_last() =~= units@.take(i as int));
            assert(units@.take(i as int + 1).last() == units@[i as int]);
            assert(out@ =~= spec_be_bytes(units@.take(i as int + 1)));
        }
        i = i + 1;
    }
    proof {
        assert(units@.take(i as int) =~= units@);
    }
    out
}

fn push_escape_block(run: &Vec<char>, out: &mut Vec<char>)
    ensures
        final(out)@ == old(out)@ + spec_escape_block(run@),
{
    out.push('&');
    let units = utf16_of_chars(run);
    let bytes = be_bytes(&units);
    let encoded = b64_encode_imap(bytes.as_slice());
    let mut i: usize = 0;
    let ghost mid = out@;
    while i < encoded.len()
        invariant
            i <= encoded@.len(),
            out@ == mid + encoded@.take(i as int),
        decreases encoded@.len() - i,
    {
        out.push(encoded[i]);
        proof {
            assert(encoded@.take(i as int + 1) =~= encoded@.take(i as int).push(
                encoded@[i as int],
            ));
            assert(out@ =~= mid + encoded@.take(i as int + 1));
        }
        i = i + 1;
    }
    out.push('-');
    proof {
        assert(encoded@.take(i as int) =~= encoded@);
        assert(out@ =~= old(out)@ + spec_escape_block(run@));
    }
}

/// A printable name on the wire: every character as itself, except `&`,
/// which travels as the literal escape `&-`.
pub open spec fn spec_amp_escaped(s: Seq<char>) -> Seq<char>
    decreases s.len(),
{
    if s.len() == 0 {
        Seq::empty()
    } else {
        spec_amp_escaped(s.drop_last()) + (if s.last() == '&' {
            seq!['&', '-']
        } else {
            seq![s.last()]
        })
    }
}

proof fn lemma_encode_printable(s: Seq<char>)
    requires
        forall|i: int| 0 <= i < s.len() ==> spec_printable(#[trigger] s[i]),
    ensures
        spec_utf7_fold(s) == (spec_amp_escaped(s), Seq::<char>::empty()),
    decreases s.len(),
{
    if s.len() > 0 {
        assert forall|i: int| 0 <= i < s.drop_last().len() implies spec_printable(
            #[trigger] s.drop_last()[i],
        ) by {
            assert(s.drop_last()[i] == s[i]);
        }
        lemma_encode_printable(s.drop_last());
        assert(spec_printable(s.last()));
        assert(spec_utf7_fold(s) =~~= (spec_amp_escaped(s), Seq::<char>::empty()));
    } else {
        assert(spec_utf7_fold(s) =~~= (spec_amp_escaped(s), Seq::<char>::empty()));
    }
}

proof fn lemma_amp_escaped_front(s: Seq<char>)
    requires
        s.len() > 0,
    ensures
        spec_amp_escaped(s) == (if s[0] == '&' {
            seq!['&', '-']
        } else {
            seq![s[0]]
        }) + spec_amp_escaped(s.skip(1)),
    decreases s.len(),
{
    let head: Seq<char> = if s[0] == '&' {
        seq!['&', '-']
    } else {
        seq![s[0]]
    };
    if s.len() == 1 {
        assert(s.drop_last() =~= Seq::<char>::empty());
        assert(s.skip(1) =~= Seq::<char>::empty());
        assert(s.last() == s[0]);
        assert(spec_amp_escaped(s) =~= head + spec_amp_escaped(s.skip(1)));
    } else {
        lemma_amp_escaped_front(s.drop_last());
        assert(s.drop_last()[0] == s[0]);
        assert(s.drop_last().skip(1) =~= s.skip(1).drop_last());
        assert(s.skip(1).last() == s.last());
        assert(spec_amp_escaped(s) =~= head + spec_amp_escaped(s.skip(1)));
    }
}

proof fn lemma_decode_amp_escaped(s: Seq<char>)
    requires
        forall|i: int| 0 <= i < s.len() ==> spec_printable(#[trigger] s[i]),
    ensures
        spec_utf7_decode(spec_amp_escaped(s)) == s,
    decreases s.len(),
{
    if s.len() == 0 {
        assert(spec_amp_escaped(s) =~= Seq::<char>::empty());
    } else {
        lemma_amp_escaped_front(s);
        assert forall|i: int| 0 <= i < s.skip(1).len() implies spec_printable(
            #[trigger] s.skip(1)[i],
        ) by {
            assert(s.skip(1)[i] == s[i + 1]);
        }
        lemma_decode_amp_escaped(s.skip(1));
        let e = spec_amp_escaped(s);
        if s[0] == '&' {
            assert(e == seq!['&', '-'] + spec_amp_escaped(s.skip(1)));
            assert(e[0] == '&');
            let rest = e.skip(1);
            assert(rest =~= seq!['-'] + spec_amp_escaped(s.skip(1)));
            assert(rest[0] == '-');
            assert(spec_find(rest, '-') == Some(0int));
            assert(rest.skip(1) =~= spec_amp_escaped(s.skip(1)));
            assert(spec_utf7_decode(e) =~= seq!['&'] + spec_utf7_decode(rest.skip(1)));
            assert(seq!['&'] + s.skip(1) =~= s);
        } else {
            assert(e == seq![s[0]] + spec_amp_escaped(s.skip(1)));
            assert(e[0] == s[0]);
            assert(e[0] != '&') by {
                assert(s[0] != '&');
            }
            assert(e.skip(1) =~= spec_amp_escaped(s.skip(1)));
            assert(spec_utf7_decode(e) =~= seq![s[0]] + spec_utf7_decode(e.skip(1)));
            assert(seq![s[0]] + s.skip(1) =~= s);
        }
    }
}

/// Round trip on printable-ASCII names: encoding such a mailbox name and
/// decoding the wire form gives the name back. On the wire the name reads
/// as itself, with each `&` as the literal escape `&-`; no base64 escape
/// blocks arise.
pub proof fn lemma_utf7_printable_roundtrip(s: Seq<char>)
    requires
        forall|i: int| 0 <= i < s.len() ==> spec_printable(#[trigger] s[i]),
    ensures
        spec_utf7_encode(s) == spec_amp_escaped(s),
        spec_utf7_decode(spec_utf7_encode(s)) == s,
{
    lemma_encode_printable(s);
    assert(spec_utf7_encode(s) == spec_amp_escaped(s));
    lemma_decode_amp_escaped(s);
}

/// Encodes a mailbox name into its Modified UTF-7 wire form.
pub fn encode_imap_utf7(input: &str) -> (r: String)
    ensures
        r@ == spec_utf7_encode(input@),
{
    let chars = str_to_chars(input);
    let mut out: Vec<char> = Vec::new();
    let mut run: Vec<char> = Vec::new();
    let mut i: usize = 0;
    proof {
        assert((out@, run@) == spec_utf7_fold(chars@.take(0)));
    }
    while i < chars.len()
        invariant
            i <= chars@.len(),
            (out@, run@) == spec_utf7_fold(chars@.take(i as int)),
        decreases chars@.len() - i,
    {
        let c = chars[i];
        proof {
            assert(chars@.take(i as int + 1).drop_last() =~= chars@.take(i as int));
            assert(chars@.take(i as int + 1).last() == chars@[i as int]);
        }
        let u = c as u32;
        if c == '&' {
            if run.len() > 0 {
                push_escape_block(&run, &mut out);
                run = Vec::new();
            }
            out.push('&');
            out.push('-');
            proof {
                assert(out@ =~= spec_utf7_fold(chars@.take(i as int + 1)).0);
                assert(run@ =~= spec_utf7_fold(chars@.take(i as int + 1)).1);
            }
        } else if 0x20 <= u && u <= 0x7E {
            if run.len() > 0 {
                push_escape_block(&run, &mut out);
                run = Vec::new();
            }
            out.push(c);
            proof {
                assert(out@ =~= spec_utf7_fold(chars@.take(i as int + 1)).0);
                assert(run@ =~= spec_utf7_fold(chars@.take(i as int + 1)).1);
            }
        } else {
            run.push(c);
            proof {
                assert(out@ =~= spec_utf7_fold(chars@.take(i as int + 1)).0);
                assert(run@ =~= spec_utf7_fold(chars@.take(i as int + 1)).1);
            }
        }
        i = i + 1;
    }
    proof {
        assert(chars@.take(i as int) =~= chars@);
    }
    if run.len() > 0 {
        push_escape_block(&run, &mut out);
    }
    proof {
        assert(out@ =~= spec_utf7_encode(input@));
    }
    chars_to_string(&out)
}

fn utf16_decode_units(units: &Vec<u16>) -> (r: Option<Vec<char>>)
    ensures
        match r {
            Some(v) => spec_utf16_decode(units@) == Some(v@),
            None => spec_utf16_decode(units@) is None,
        },
{
    let mut out: Vec<char> = Vec::new();
    let mut i: usize = 0;
    proof {
        assert(units@.skip(0) =~= units@);
    }
    while i < units.len()
        invariant
            i <= units@.len(),
            match spec_utf16_decode(units@.skip(i as int)) {
                Some(rest) => spec_utf16_decode(units@) == Some(out@ + rest),
                None => spec_utf16_decode(units@) is None,
            },
        decreases units@.len() - i,
    {
        let u = units[i];
        proof {
            assert(units@.skip(i as int)[0] == units@[i as int]);
        }
        if 0xD800 <= u && u < 0xDC00 {
            if i + 1 < units.len() && 0xDC00 <= units[i + 1] && units[i + 1] < 0xE000 {
                let u1 = units[i + 1];
                proof {
                    assert(units@.skip(i as int)[1] == units@[i as int + 1]);
                    assert(units@.skip(i as int).skip(2) =~= units@.skip(i as int + 2));
                }
                let cp: u32 = 0x10000 + (u as u32 - 0xD800) * 0x400 + (u1 as u32 - 0xDC00);
                match char_from_u32(cp) {
                    Some(c) => {
                        let ghost pre = out@;
                        out.push(c);
                        proof {
                            vstd::utf8::char_u32_cast(c, cp);
                            let rest = spec_utf16_decode(units@.skip(i as int + 2));
                            match rest {
                                Some(rr) => {
                                    assert(out@ + rr =~= pre + (seq![cp as char] + rr));
                                },
                                None => {},
                            }
                        }
                        i = i + 2;
                    },
                    None => {
                        proof {
                            assert(0x10000 <= cp < 0x110000);
                            assert(false);
                        }
                        return None;
                    },
                }
            } else {
                return None;
            }
        } else if 0xDC00 <= u && u < 0xE000 {
            return None;
        } else {
            proof {
                assert(units@.skip(i as int).skip(1) =~= units@.skip(i as int + 1));
            }
            match char_from_u32(u as u32) {
                Some(c) => {
                    let ghost pre = out@;
                    out.push(c);
                    proof {
                        vstd::utf8::char_u32_cast(c, u as u32);
                        let rest = spec_utf16_decode(units@.skip(i as int + 1));
                        match rest {
                            Some(rr) => {
                                assert(out@ + rr =~= pre + (seq![u as u32 as char] + rr));
                            },
                            None => {},
                        }
                    }
                    i = i + 1;
                },
                None => {
                    proof {
                        assert(u < 0xD800 || u >= 0xE000);
                        assert((u as u32) < 0xD800 || 0xE000 <= (u as u32) < 0x110000);
                        assert(false);
                    }
                    return None;
                },
            }
        }
    }
    proof {
        assert(units@.skip(i as int) =~= Seq::<u16>::empty());
        assert(out@ + Seq::<char>::empty() =~= out@);
    }
    Some(out)
}

fn units_of_bytes(bytes: &Vec<u8>) -> (r: Vec<u16>)
    ensures
        r@ == spec_units_of_bytes(bytes@),
{
    let mut out: Vec<u16> = Vec::new();
    let mut i: usize = 0;
    proof {
        assert(bytes@.skip(0) =~= bytes@);
        assert(out@ + spec_units_of_bytes(bytes@.skip(0)) =~= spec_units_of_bytes(bytes@));
    }
    while bytes.len() - i >= 2
        invariant
            i <= bytes@.len(),
            out@ + spec_units_of_bytes(bytes@.skip(i as int)) == spec_units_of_bytes(bytes@),
        decreases bytes@.len() - i,
    {
        let hi = bytes[i];
        let lo = bytes[i + 1];
        let ghost pre = out@;
        out.push(hi as u16 * 256 + lo as u16);
        proof {
            assert(bytes@.skip(i as int)[0] == bytes@[i as int]);
            assert(bytes@.skip(i as int)[1] == bytes@[i as int + 1]);
            assert(bytes@.skip(i as int).skip(2) =~= bytes@.skip(i as int + 2));
            assert(spec_units_of_bytes(bytes@.skip(i as int)) == seq![
                (bytes@[i as int] as int * 256 + bytes@[i as int + 1] as int) as u16,
            ] + spec_units_of_bytes(bytes@.skip(i as int + 2)));
            assert(out@ + spec_units_of_bytes(bytes@.skip(i as int + 2)) =~= pre
                + spec_units_of_bytes(bytes@.skip(i as int)));
        }
        i = i + 2;
    }
    proof {
        assert(spec_units_of_bytes(bytes@.skip(i as int)) =~= Seq::<u16>::empty());
        assert(out@ + Seq::<u16>::empty() =~= out@);
    }
    out
}

/// Decodes one escape block; a malformed block passes through verbatim.
fn block_decode(encoded: &Vec<char>, out: &mut Vec<char>)
    ensures
        final(out)@ == old(out)@ + spec_block_decode(encoded@),
{
    let decoded = b64_decode_raw(encoded.as_slice(), true);
    match decoded {
        Some(bytes) => {
            let units = units_of_bytes(&bytes);
            match utf16_decode_units(&units) {
                Some(chars) => {
                    push_all(&chars, out);
                    proof {
                        assert(out@ =~= old(out)@ + spec_block_decode(encoded@));
                    }
                },
                None => {
                    out.push('&');
                    push_all(encoded, out);
                    out.push('-');
                    proof {
                        assert(out@ =~= old(out)@ + spec_block_decode(encoded@));
                    }
                },
            }
        },
        None => {
            out.push('&');
            push_all(encoded, out);
            out.push('-');
            proof {
                assert(out@ =~= old(out)@ + spec_block_decode(encoded@));
            }
        },
    }
}

fn push_all(src: &Vec<char>, out: &mut Vec<char>)
    ensures
        final(out)@ == old(out)@ + src@,
{
    let mut i: usize = 0;
    while i < src.len()
        invariant
            i <= src@.len(),
            out@ == old(out)@ + src@.take(i as int),
        decreases src@.len() - i,
    {
        out.push(src[i]);
        proof {
            assert(src@.take(i as int + 1) =~= src@.take(i as int).push(src@[i as int]));
            assert(out@ =~= old(out)@ + src@.take(i as int + 1));
        }
        i = i + 1;
    }
    proof {
        assert(src@.take(i as int) =~= src@);
    }
}

/// Decodes a Modified UTF-7 mailbox name; malformed escapes pass through
/// unchanged, wrapped in `&…-`.
pub fn decode_imap_utf7(input: &str) -> (r: String)
    ensures
        r@ == spec_utf7_decode(input@),
{
    let chars = str_to_chars(input);
    let mut out: Vec<char> = Vec::new();
    let mut i: usize = 0;
    proof {
        assert(chars@.skip(0) =~= chars@);
        assert(out@ + spec_utf7_decode(chars@.skip(0)) =~= spec_utf7_decode(chars@));
    }
    while i < chars.len()
        invariant
            i <= chars@.len(),
            out@ + spec_utf7_decode(chars@.skip(i as int)) == spec_utf7_decode(chars@),
        decreases chars@.len() - i,
    {
        let c = chars[i];
        let ghost pre = out@;
        let ghost rem = chars@.skip(i as int);
        proof {
            assert(rem[0] == chars@[i as int]);
            assert(rem.skip(1) =~= chars@.skip(i as int + 1));
        }
        if c != '&' {
            out.push(c);
            proof {
                assert(spec_utf7_decode(rem) == seq![c] + spec_utf7_decode(rem.skip(1)));
                assert(out@ + spec_utf7_decode(chars@.skip(i as int + 1)) =~= pre
                    + spec_utf7_decode(rem));
            }
            i = i + 1;
        } else {
            let ghost rest = rem.skip(1);
            let mut encoded: Vec<char> = Vec::new();
            let mut j: usize = i + 1;
            while j < chars.len() && chars[j] != '-'
                invariant
                    i + 1 <= j <= chars@.len(),
                    encoded@ == chars@.subrange(i as int + 1, j as int),
                    forall|k: int| i + 1 <= k < j ==> chars@[k] != '-',
                decreases chars@.len() - j,
            {
                encoded.push(chars[j]);
                proof {
                    assert(chars@.subrange(i as int + 1, j as int + 1) =~= chars@.subrange(
                        i as int + 1,
                        j as int,
                    ).push(chars@[j as int]));
                }
                j = j + 1;
            }
            proof {
                assert(rest =~= chars@.skip(i as int + 1));
                assert forall|k: int| 0 <= k < j - i - 1 implies rest[k] != '-' by {
                    assert(rest[k] == chars@[i as int + 1 + k]);
                }
                if j < chars@.len() {
                    assert(rest[j - i - 1] == chars@[j as int]);
                    assert(chars@[j as int] == '-');
                    lemma_find_some(rest, '-', j - i - 1);
                } else {
                    assert(rest.len() == j - i - 1);
                    lemma_find_none(rest, '-');
                }
            }
            if j >= chars.len() {
                // unterminated escape: decode what is there
                block_decode(&encoded, &mut out);
                proof {
                    assert(encoded@ =~= rest);
                    assert(spec_utf7_decode(rem) == spec_block_decode(rest));
                    assert(chars@.skip(j as int) =~= Seq::<char>::empty());
                    assert(out@ + spec_utf7_decode(chars@.skip(j as int)) =~= pre
                        + spec_utf7_decode(rem));
                }
                i = j;
            } else if j == i + 1 {
                // `&-` is a literal ampersand
                out.push('&');
                proof {
                    assert(spec_find(rest, '-') == Some(0int));
                    assert(spec_utf7_decode(rem) == seq!['&'] + spec_utf7_decode(rest.skip(1)));
                    assert(rest.skip(1) =~= chars@.skip(i as int + 2));
                    assert(out@ + spec_utf7_decode(chars@.skip(i as int + 2)) =~= pre
                        + spec_utf7_decode(rem));
                }
                i = j + 1;
            } else {
                block_decode(&encoded, &mut out);
                proof {
                    let k = j - i - 1;
                    assert(spec_find(rest, '-') == Some(k as int));
                    assert(encoded@ =~= rest.take(k as int));
                    assert(spec_utf7_decode(rem) == spec_block_decode(rest.take(k as int))
                        + spec_utf7_decode(rest.skip(k as int + 1)));
                    assert(rest.skip(k as int + 1) =~= chars@.skip(j as int + 1));
                    assert(out@ + spec_utf7_decode(chars@.skip(j as int + 1)) =~= pre
                        + spec_utf7_decode(rem));
                }
                i = j + 1;
            }
        }
    }
    proof {
        assert(chars@.skip(i as int) =~= Seq::<char>::empty());
        assert(out@ + Seq::<char>::empty() =~= out@);
    }
    chars_to_string(&out)
}

} // verus!
