//! Shared text utilities: character-vector views of strings and decimal
//! formatting, used by the wire codecs and serializers.

use vstd::prelude::*;

verus! {

/// Relies on str::chars: yields exactly the characters of the string, in order.
#[verifier::external_body]
pub fn str_to_chars(s: &str) -> (v: Vec<char>)
    ensures
        v@ == s@,
{
    s.chars().collect()
}

/// Relies on String::from_iter over chars: builds the string holding exactly
/// the given characters, in order.
#[verifier::external_body]
pub fn chars_to_string(v: &Vec<char>) -> (s: String)
    ensures
        s@ == v@,
{
    v.iter().collect()
}

/// Relies on str's PartialEq: two slices are equal exactly when they hold the
/// same characters.
#[verifier::external_body]
pub fn str_eq(a: &str, b: &str) -> (r: bool)
    ensures
        r == (a@ == b@),
{
    a == b
}

pub open spec fn spec_digit_char(d: int) -> char {
    if d == 0 {
        '0'
    } else if d == 1 {
        '1'
    } else if d == 2 {
        '2'
    } else if d == 3 {
        '3'
    } else if d == 4 {
        '4'
    } else if d == 5 {
        '5'
    } else if d == 6 {
        '6'
    } else if d == 7 {
        '7'
    } else if d == 8 {
        '8'
    } else {
        '9'
    }
}

pub open spec fn spec_digit_val(c: char) -> int {
    if c == '0' {
        0
    } else if c == '1' {
        1
    } else if c == '2' {
        2
    } else if c == '3' {
        3
    } else if c == '4' {
        4
    } else if c == '5' {
        5
    } else if c == '6' {
        6
    } else if c == '7' {
        7
    } else if c == '8' {
        8
    } else if c == '9' {
        9
    } else {
        10
    }
}

pub open spec fn spec_is_digit(c: char) -> bool {
    spec_digit_val(c) < 10
}

/// The decimal digit sequence of `n`, without leading zeros (except for 0 itself).
pub open spec fn spec_u64_digits(n: int) -> Seq<char>
    decreases n,
{
    if n < 10 {
        seq![spec_digit_char(n)]
    } else {
        spec_u64_digits(n / 10) + seq![spec_digit_char(n % 10)]
    }
}

/// The value of a digit sequence read in base 10.
pub open spec fn spec_digits_val(s: Seq<char>) -> int
    decreases s.len(),
{
    if s.len() == 0 {
        0
    } else {
        spec_digits_val(s.drop_last()) * 10 + spec_digit_val(s.last())
    }
}

pub open spec fn spec_all_digits(s: Seq<char>) -> bool {
    forall|i: int| 0 <= i < s.len() ==> spec_is_digit(#[trigger] s[i])
}

pub proof fn lemma_digit_char_val(d: int)
    requires
        0 <= d <= 9,
    ensures
        spec_digit_val(spec_digit_char(d)) == d,
        spec_is_digit(spec_digit_char(d)),
{
}

pub proof fn lemma_digits_len(n: int)
    requires
        0 <= n,
    ensures
        spec_u64_digits(n).len() >= 1,
    decreases n,
{
    if n >= 10 {
        lemma_digits_len(n / 10);
    }
}

/// Reading back the decimal form of `n` yields `n`.
pub proof fn lemma_digits_roundtrip(n: int)
    requires
        0 <= n,
    ensures
        spec_digits_val(spec_u64_digits(n)) == n,
        spec_all_digits(spec_u64_digits(n)),
        spec_u64_digits(n).len() >= 1,
    decreases n,
{
    lemma_digits_len(n);
    if n < 10 {
        lemma_digit_char_val(n);
        let s = spec_u64_digits(n);
        assert(s == seq![spec_digit_char(n)]);
        assert(s.drop_last() =~= Seq::<char>::empty());
        assert(spec_digits_val(s.drop_last()) == 0);
        assert(s.last() == spec_digit_char(n));
        assert(spec_digits_val(s) == 0 * 10 + spec_digit_val(spec_digit_char(n)));
    } else {
        lemma_digits_roundtrip(n / 10);
        lemma_digit_char_val(n % 10);
        let s = spec_u64_digits(n);
        assert(s == spec_u64_digits(n / 10) + seq![spec_digit_char(n % 10)]);
        assert(s.drop_last() =~= spec_u64_digits(n / 10));
        assert(s.len() == spec_u64_digits(n / 10).len() + 1);
        assert(s.last() == spec_digit_char(n % 10));
        assert(spec_digits_val(s) == spec_digits_val(s.drop_last()) * 10 + spec_digit_val(
            s.last(),
        ));
        assert(spec_digits_val(s.drop_last()) == n / 10);
        assert(spec_digit_val(s.last()) == n % 10);
        assert(n / 10 * 10 + n % 10 == n) by (nonlinear_arith);
        assert forall|i: int| 0 <= i < s.len() implies spec_is_digit(#[trigger] s[i]) by {
            if i < s.len() - 1 {
                assert(s[i] == spec_u64_digits(n / 10)[i]);
            }
        }
    }
}

fn digit_to_char(d: u64) -> (c: char)
    requires
        d <= 9,
    ensures
        c == spec_digit_char(d as int),
{
    if d == 0 {
        '0'
    } else if d == 1 {
        '1'
    } else if d == 2 {
        '2'
    } else if d == 3 {
        '3'
    } else if d == 4 {
        '4'
    } else if d == 5 {
        '5'
    } else if d == 6 {
        '6'
    } else if d == 7 {
        '7'
    } else if d == 8 {
        '8'
    } else {
        '9'
    }
}

pub fn char_digit_val(c: char) -> (d: u32)
    ensures
        d == spec_digit_val(c),
{
    if c == '0' {
        0
    } else if c == '1' {
        1
    } else if c == '2' {
        2
    } else if c == '3' {
        3
    } else if c == '4' {
        4
    } else if c == '5' {
        5
    } else if c == '6' {
        6
    } else if c == '7' {
        7
    } else if c == '8' {
        8
    } else if c == '9' {
        9
    } else {
        10
    }
}

/// Appends the decimal form of `n` to `out`.
pub fn push_u64_digits(n: u64, out: &mut Vec<char>)
    ensures
        final(out)@ == old(out)@ + spec_u64_digits(n as int),
    decreases n,
{
    if n >= 10 {
        push_u64_digits(n / 10, out);
    }
    let d = digit_to_char(n % 10);
    out.push(d);
    if n < 10 {
        assert(out@ =~= old(out)@ + spec_u64_digits(n as int));
    } else {
        assert(out@ =~= old(out)@ + spec_u64_digits(n as int));
    }
}

/// The decimal form of `n` as a string.
pub fn u32_to_string(n: u32) -> (s: String)
    ensures
        s@ == spec_u64_digits(n as int),
{
    let mut out: Vec<char> = Vec::new();
    push_u64_digits(n as u64, &mut out);
    assert(out@ =~= spec_u64_digits(n as int));
    chars_to_string(&out)
}

/// The decimal form of `n` as a string.
pub fn u64_to_string(n: u64) -> (s: String)
    ensures
        s@ == spec_u64_digits(n as int),
{
    let mut out: Vec<char> = Vec::new();
    push_u64_digits(n, &mut out);
    assert(out@ =~= spec_u64_digits(n as int));
    chars_to_string(&out)
}

/// Split on every occurrence of `sep`; empty pieces are kept, so the result
/// always holds one piece more than the number of separators.
pub open spec fn spec_split(s: Seq<char>, sep: char) -> Seq<Seq<char>>
    decreases s.len(),
{
    if s.len() == 0 {
        seq![Seq::empty()]
    } else {
        let r = spec_split(s.drop_last(), sep);
        if s.last() == sep {
            r.push(Seq::empty())
        } else {
            r.update(r.len() - 1, r.last().push(s.last()))
        }
    }
}

pub proof fn lemma_split_len(s: Seq<char>, sep: char)
    ensures
        spec_split(s, sep).len() >= 1,
    decreases s.len(),
{
    if s.len() > 0 {
        lemma_split_len(s.drop_last(), sep);
    }
}

/// A separator-free string splits into itself alone.
pub proof fn lemma_split_no_sep(s: Seq<char>, sep: char)
    requires
        forall|i: int| 0 <= i < s.len() ==> s[i] != sep,
    ensures
        spec_split(s, sep) == seq![s],
    decreases s.len(),
{
    if s.len() == 0 {
        assert(spec_split(s, sep) =~~= seq![s]);
    } else {
        lemma_split_no_sep(s.drop_last(), sep);
        let r = spec_split(s.drop_last(), sep);
        assert(r == seq![s.drop_last()]);
        assert(r.update(0, s.drop_last().push(s.last())) =~~= seq![s]);
    }
}

/// Splitting distributes over a separator between two halves.
pub proof fn lemma_split_append(a: Seq<char>, b: Seq<char>, sep: char)
    ensures
        spec_split(a + seq![sep] + b, sep) == spec_split(a, sep) + spec_split(b, sep),
    decreases b.len(),
{
    lemma_split_len(a, sep);
    lemma_split_len(b, sep);
    if b.len() == 0 {
        let s = a + seq![sep] + b;
        assert(s =~= a + seq![sep]);
        assert(s.len() > 0);
        assert(s.last() == sep);
        assert(s.drop_last() =~= a);
        assert(spec_split(b, sep) == seq![Seq::<char>::empty()]);
        assert(spec_split(s, sep) =~~= spec_split(a, sep) + spec_split(b, sep));
    } else {
        lemma_split_append(a, b.drop_last(), sep);
        let s = a + seq![sep] + b;
        assert(s.len() > 0);
        assert(s.last() == b.last());
        assert(s.drop_last() =~= a + seq![sep] + b.drop_last());
        let r = spec_split(s.drop_last(), sep);
        let ra = spec_split(a, sep);
        let rb0 = spec_split(b.drop_last(), sep);
        assert(r == ra + rb0);
        lemma_split_len(b.drop_last(), sep);
        if b.last() == sep {
            assert(spec_split(s, sep) == r.push(Seq::empty()));
            assert(spec_split(b, sep) == rb0.push(Seq::empty()));
            assert((ra + rb0).push(Seq::<char>::empty()) =~~= ra + rb0.push(Seq::empty()));
        } else {
            assert(spec_split(s, sep) == r.update(r.len() - 1, r.last().push(b.last())));
            assert(spec_split(b, sep) == rb0.update(rb0.len() - 1, rb0.last().push(b.last())));
            assert(r.last() == rb0.last());
            assert(r.update(r.len() - 1, r.last().push(b.last())) =~~= ra + rb0.update(
                rb0.len() - 1,
                rb0.last().push(b.last()),
            ));
        }
    }
}

/// Splits `v` on `sep`, keeping empty pieces.
pub fn split_chars(v: &Vec<char>, sep: char) -> (r: Vec<Vec<char>>)
    ensures
        r@.map_values(|p: Vec<char>| p@) == spec_split(v@, sep),
{
    let mut r: Vec<Vec<char>> = Vec::new();
    r.push(Vec::new());
    let mut i: usize = 0;
    proof {
        assert(r@.map_values(|p: Vec<char>| p@) =~= spec_split(v@.take(0), sep));
    }
    while i < v.len()
        invariant
            i <= v@.len(),
            r@.len() >= 1,
            r@.map_values(|p: Vec<char>| p@) == spec_split(v@.take(i as int), sep),
        decreases v@.len() - i,
    {
        let ghost prev = r@.map_values(|p: Vec<char>| p@);
        let c = v[i];
        if c == sep {
            r.push(Vec::new());
            proof {
                assert(v@.take(i as int + 1).drop_last() =~= v@.take(i as int));
                assert(v@.take(i as int + 1).last() == sep);
                assert(r@.map_values(|p: Vec<char>| p@) =~= prev.push(Seq::empty()));
            }
        } else {
            let last_idx = r.len() - 1;
            let mut piece = r.remove(last_idx);
            piece.push(c);
            r.push(piece);
            proof {
                assert(v@.take(i as int + 1).drop_last() =~= v@.take(i as int));
                assert(v@.take(i as int + 1).last() == c);
                assert(r@.map_values(|p: Vec<char>| p@) =~= prev.update(
                    prev.len() - 1,
                    prev.last().push(c),
                ));
            }
        }
        i = i + 1;
    }
    proof {
        assert(v@.take(i as int) =~= v@);
    }
    r
}

/// Prefix values never exceed the value of the whole digit string.
pub proof fn lemma_digits_val_prefix_le(s: Seq<char>, k: int)
    requires
        0 <= k <= s.len(),
        forall|i: int| 0 <= i < s.len() ==> spec_digit_val(#[trigger] s[i]) >= 0,
    ensures
        spec_digits_val(s.take(k)) <= spec_digits_val(s),
        spec_digits_val(s) >= 0,
    decreases s.len(),
{
    if s.len() == 0 {
    } else if k == s.len() {
        assert(s.take(k) =~= s);
        lemma_digits_val_prefix_le(s.drop_last(), s.len() - 1);
        assert(spec_digits_val(s.drop_last()) * 10 >= spec_digits_val(s.drop_last())) by (nonlinear_arith)
            requires
                spec_digits_val(s.drop_last()) >= 0,
        ;
    } else {
        lemma_digits_val_prefix_le(s.drop_last(), k);
        assert(s.drop_last().take(k) =~= s.take(k));
        assert(spec_digits_val(s.drop_last()) * 10 >= spec_digits_val(s.drop_last())) by (nonlinear_arith)
            requires
                spec_digits_val(s.drop_last()) >= 0,
        ;
    }
}

/// Parses an unsigned decimal number; `None` on the empty string, a non-digit,
/// or a value that does not fit in u32.
pub open spec fn spec_parse_u32(s: Seq<char>) -> Option<u32> {
    if s.len() >= 1 && spec_all_digits(s) && spec_digits_val(s) <= u32::MAX {
        Some(spec_digits_val(s) as u32)
    } else {
        None
    }
}

pub fn parse_u32_chars(v: &[char]) -> (r: Option<u32>)
    ensures
        r == spec_parse_u32(v@),
{
    if v.len() == 0 {
        return None;
    }
    let mut acc: u64 = 0;
    let mut i: usize = 0;
    proof {
        assert(v@.take(0) =~= Seq::<char>::empty());
    }
    while i < v.len()
        invariant
            i <= v@.len(),
            acc == spec_digits_val(v@.take(i as int)),
            acc <= u32::MAX,
            spec_all_digits(v@.take(i as int)),
        decreases v@.len() - i,
    {
        let c = v[i];
        let d = char_digit_val(c);
        if d >= 10 {
            proof {
                assert(!spec_is_digit(v@[i as int]));
            }
            return None;
        }
        let next: u64 = acc * 10 + d as u64;
        proof {
            assert(v@.take(i as int + 1).drop_last() =~= v@.take(i as int));
            assert(v@.take(i as int + 1).last() == c);
            assert(spec_digits_val(v@.take(i as int + 1)) == acc * 10 + spec_digit_val(c));
        }
        if next > u32::MAX as u64 {
            proof {
                assert forall|j: int| 0 <= j < v@.len() implies spec_digit_val(
                    #[trigger] v@[j],
                ) >= 0 by {}
                lemma_digits_val_prefix_le(v@, i as int + 1);
                assert(v@.take(i as int + 1) == v@.take(i as int + 1));
                assert(spec_digits_val(v@) >= spec_digits_val(v@.take(i as int + 1)));
            }
            return None;
        }
        acc = next;
        i = i + 1;
    }
    proof {
        assert(v@.take(i as int) =~= v@);
    }
    Some(acc as u32)
}

pub open spec fn spec_is_space(c: char) -> bool {
    c == ' ' || c == '\t' || c == '\r' || c == '\n'
}

/// Leading and trailing ASCII whitespace removed.
pub open spec fn spec_trim(s: Seq<char>) -> Seq<char>
    decreases s.len(),
{
    if s.len() == 0 {
        s
    } else if spec_is_space(s[0]) {
        spec_trim(s.skip(1))
    } else if spec_is_space(s.last()) {
        spec_trim(s.drop_last())
    } else {
        s
    }
}

fn is_space(c: char) -> (r: bool)
    ensures
        r == spec_is_space(c),
{
    c == ' ' || c == '\t' || c == '\r' || c == '\n'
}

/// Trims ASCII whitespace from both ends.
pub fn trim_chars(v: &Vec<char>) -> (r: Vec<char>)
    ensures
        r@ == spec_trim(v@),
{
    let mut a: usize = 0;
    let mut b: usize = v.len();
    proof {
        assert(v@.subrange(0, b as int) =~= v@);
    }
    while a < b && is_space(v[a])
        invariant
            a <= b <= v@.len(),
            spec_trim(v@) == spec_trim(v@.subrange(a as int, b as int)),
            b == v@.len(),
        decreases b - a,
    {
        proof {
            let sub = v@.subrange(a as int, b as int);
            assert(sub[0] == v@[a as int]);
            assert(sub.skip(1) =~= v@.subrange(a as int + 1, b as int));
        }
        a = a + 1;
    }
    while a < b && is_space(v[b - 1])
        invariant
            a <= b <= v@.len(),
            spec_trim(v@) == spec_trim(v@.subrange(a as int, b as int)),
            a < b ==> !spec_is_space(v@[a as int]),
        decreases b,
    {
        proof {
            let sub = v@.subrange(a as int, b as int);
            assert(sub[0] == v@[a as int]);
            assert(sub.last() == v@[b as int - 1]);
            assert(sub.drop_last() =~= v@.subrange(a as int, b as int - 1));
        }
        b = b - 1;
    }
    proof {
        let sub = v@.subrange(a as int, b as int);
        if a < b {
            assert(sub[0] == v@[a as int]);
            assert(sub.last() == v@[b as int - 1]);
        }
        assert(spec_trim(sub) == sub);
    }
    let mut out: Vec<char> = Vec::new();
    let mut k: usize = a;
    proof {
        assert(out@ =~= v@.subrange(a as int, a as int));
    }
    while k < b
        invariant
            a <= k <= b <= v@.len(),
            out@ == v@.subrange(a as int, k as int),
        decreases b - k,
    {
        out.push(v[k]);
        proof {
            assert(v@.subrange(a as int, k as int + 1) =~= v@.subrange(a as int, k as int).push(
                v@[k as int],
            ));
        }
        k = k + 1;
    }
    out
}

/// Whether `p` occurs at position `at` of `s`.
pub open spec fn spec_match_at(s: Seq<char>, p: Seq<char>, at: int) -> bool {
    0 <= at && at + p.len() <= s.len() && s.subrange(at, at + p.len()) == p
}

/// Whether `p` occurs anywhere in `s`.
pub open spec fn spec_contains_seq(s: Seq<char>, p: Seq<char>) -> bool {
    exists|at: int| spec_match_at(s, p, at)
}

pub open spec fn spec_starts_with(s: Seq<char>, p: Seq<char>) -> bool {
    spec_match_at(s, p, 0)
}

pub fn match_at(s: &Vec<char>, p: &Vec<char>, at: usize) -> (r: bool)
    requires
        at + p@.len() <= s@.len(),
    ensures
        r == spec_match_at(s@, p@, at as int),
{
    let n = s.len();
    let mut i: usize = 0;
    while i < p.len()
        invariant
            n == s@.len(),
            i <= p@.len(),
            at + p@.len() <= s@.len(),
            forall|k: int| 0 <= k < i ==> s@[at + k] == p@[k],
        decreases p@.len() - i,
    {
        if s[at + i] != p[i] {
            proof {
                assert(s@.subrange(at as int, at + p@.len())[i as int] == s@[at + i]);
            }
            return false;
        }
        i = i + 1;
    }
    proof {
        assert(s@.subrange(at as int, at + p@.len()) =~= p@);
    }
    true
}

/// Whether the pattern occurs anywhere in `s`.
pub fn contains_seq(s: &Vec<char>, p: &Vec<char>) -> (r: bool)
    ensures
        r == spec_contains_seq(s@, p@),
{
    if p.len() > s.len() {
        proof {
            assert forall|at: int| !spec_match_at(s@, p@, at) by {}
        }
        return false;
    }
    if p.len() == 0 {
        proof {
            assert(s@.subrange(0, 0) =~= p@);
            assert(spec_match_at(s@, p@, 0));
        }
        return true;
    }
    let n = s.len();
    let mut at: usize = 0;
    while at <= s.len() - p.len()
        invariant
            n == s@.len(),
            1 <= p@.len() <= s@.len(),
            at <= s@.len() - p@.len() + 1,
            forall|k: int| 0 <= k < at ==> !spec_match_at(s@, p@, k),
        decreases s@.len() - p@.len() + 1 - at,
    {
        if match_at(s, p, at) {
            return true;
        }
        at = at + 1;
    }
    proof {
        assert forall|k: int| !spec_match_at(s@, p@, k) implies true by {}
        assert forall|k: int| spec_match_at(s@, p@, k) implies false by {
            assert(0 <= k <= s@.len() - p@.len());
            assert(k < at);
        }
    }
    false
}

/// Whether `s` starts with `p`.
pub fn starts_with_chars(s: &Vec<char>, p: &Vec<char>) -> (r: bool)
    ensures
        r == spec_starts_with(s@, p@),
{
    if p.len() > s.len() {
        return false;
    }
    match_at(s, p, 0)
}

/// The decimal form of `n`, with a leading `-` when negative.
pub open spec fn spec_i64_digits(n: int) -> Seq<char> {
    if n < 0 {
        seq!['-'] + spec_u64_digits(-n)
    } else {
        spec_u64_digits(n)
    }
}

pub fn i64_to_string(n: i64) -> (s: String)
    ensures
        s@ == spec_i64_digits(n as int),
{
    let mut out: Vec<char> = Vec::new();
    if n < 0 {
        out.push('-');
        let m: u64 = if n == i64::MIN {
            9223372036854775808u64
        } else {
            (-n) as u64
        };
        assert(m == -(n as int));
        push_u64_digits(m, &mut out);
        assert(out@ =~= spec_i64_digits(n as int));
    } else {
        push_u64_digits(n as u64, &mut out);
        assert(out@ =~= spec_i64_digits(n as int));
    }
    chars_to_string(&out)
}

/// Index of the first occurrence of `c` in `s`.
pub open spec fn spec_find(s: Seq<char>, c: char) -> Option<int>
    decreases s.len(),
{
    if s.len() == 0 {
        None
    } else if s[0] == c {
        Some(0)
    } else {
        match spec_find(s.drop_first(), c) {
            None => None,
            Some(k) => Some(k + 1),
        }
    }
}

/// Index of the last occurrence of `c` in `s`.
pub open spec fn spec_rfind(s: Seq<char>, c: char) -> Option<int>
    decreases s.len(),
{
    if s.len() == 0 {
        None
    } else if s.last() == c {
        Some(s.len() - 1)
    } else {
        spec_rfind(s.drop_last(), c)
    }
}

pub proof fn lemma_find_some(s: Seq<char>, c: char, i: int)
    requires
        0 <= i < s.len(),
        s[i] == c,
        forall|k: int| 0 <= k < i ==> s[k] != c,
    ensures
        spec_find(s, c) == Some(i),
    decreases s.len(),
{
    if i > 0 {
        lemma_find_some(s.drop_first(), c, i - 1);
    }
}

pub proof fn lemma_find_none(s: Seq<char>, c: char)
    requires
        forall|k: int| 0 <= k < s.len() ==> s[k] != c,
    ensures
        spec_find(s, c) is None,
    decreases s.len(),
{
    if s.len() > 0 {
        lemma_find_none(s.drop_first(), c);
    }
}

pub proof fn lemma_rfind_some(s: Seq<char>, c: char, j: int)
    requires
        0 <= j < s.len(),
        s[j] == c,
        forall|k: int| j < k < s.len() ==> s[k] != c,
    ensures
        spec_rfind(s, c) == Some(j),
    decreases s.len(),
{
    if j < s.len() - 1 {
        lemma_rfind_some(s.drop_last(), c, j);
    }
}

pub proof fn lemma_rfind_none(s: Seq<char>, c: char)
    requires
        forall|k: int| 0 <= k < s.len() ==> s[k] != c,
    ensures
        spec_rfind(s, c) is None,
    decreases s.len(),
{
    if s.len() > 0 {
        lemma_rfind_none(s.drop_last(), c);
    }
}

/// Finds the first `{` and the last `}`; when the brace pair is ordered, the
/// result is that bracketed slice, and otherwise the input unchanged. A string
/// holding exactly one balanced JSON object therefore yields that object.
pub open spec fn spec_extract_json(s: Seq<char>) -> Seq<char> {
    match (spec_find(s, '{'), spec_rfind(s, '}')) {
        (Some(i), Some(j)) => if i < j {
            s.subrange(i, j + 1)
        } else {
            s
        },
        _ => s,
    }
}

pub fn find_char(v: &Vec<char>, c: char) -> (r: Option<usize>)
    ensures
        match r {
            Some(i) => spec_find(v@, c) == Some(i as int) && i < v@.len(),
            None => spec_find(v@, c) is None,
        },
{
    let mut i: usize = 0;
    while i < v.len()
        invariant
            i <= v@.len(),
            forall|k: int| 0 <= k < i ==> v@[k] != c,
        decreases v@.len() - i,
    {
        if v[i] == c {
            proof {
                lemma_find_some(v@, c, i as int);
            }
            return Some(i);
        }
        i = i + 1;
    }
    proof {
        lemma_find_none(v@, c);
    }
    None
}

pub fn rfind_char(v: &Vec<char>, c: char) -> (r: Option<usize>)
    ensures
        match r {
            Some(j) => spec_rfind(v@, c) == Some(j as int) && j < v@.len(),
            None => spec_rfind(v@, c) is None,
        },
{
    let mut i: usize = v.len();
    while i > 0
        invariant
            i <= v@.len(),
            forall|k: int| i <= k < v@.len() ==> v@[k] != c,
        decreases i,
    {
        i = i - 1;
        if v[i] == c {
            proof {
                lemma_rfind_some(v@, c, i as int);
            }
            return Some(i);
        }
    }
    proof {
        lemma_rfind_none(v@, c);
    }
    None
}



/// Index of the first occurrence of `p` in `s`.
pub open spec fn spec_find_sub(s: Seq<char>, p: Seq<char>) -> Option<int>
    decreases s.len(),
{
    if s.len() < p.len() {
        None
    } else if spec_match_at(s, p, 0) {
        Some(0)
    } else if s.len() == 0 {
        None
    } else {
        match spec_find_sub(s.skip(1), p) {
            None => None,
            Some(k) => Some(k + 1),
        }
    }
}

pub proof fn lemma_find_sub_hit(s: Seq<char>, p: Seq<char>, i: int)
    requires
        spec_match_at(s, p, i),
        forall|k: int| 0 <= k < i ==> !spec_match_at(s, p, k),
    ensures
        spec_find_sub(s, p) == Some(i),
    decreases s.len(),
{
    if i == 0 {
    } else {
        assert(!spec_match_at(s, p, 0));
        assert(s.len() >= 1);
        assert forall|k: int| 0 <= k < i - 1 implies !spec_match_at(s.skip(1), p, k) by {
            if spec_match_at(s.skip(1), p, k) {
                assert(s.skip(1).subrange(k, k + p.len() as int) =~= s.subrange(
                    k + 1,
                    k + 1 + p.len(),
                ));
                assert(spec_match_at(s, p, k + 1));
            }
        }
        assert(spec_match_at(s.skip(1), p, i - 1)) by {
            assert(s.subrange(i, i + p.len() as int) =~= s.skip(1).subrange(
                i - 1,
                i - 1 + p.len(),
            ));
        }
        lemma_find_sub_hit(s.skip(1), p, i - 1);
    }
}

pub proof fn lemma_find_sub_miss(s: Seq<char>, p: Seq<char>)
    requires
        forall|k: int| !spec_match_at(s, p, k),
    ensures
        spec_find_sub(s, p) is None,
    decreases s.len(),
{
    if s.len() >= p.len() && s.len() > 0 {
        assert forall|k: int| !spec_match_at(s.skip(1), p, k) by {
            if 0 <= k && k + p.len() <= s.skip(1).len() && spec_match_at(s.skip(1), p, k) {
                assert(s.skip(1).subrange(k, k + p.len() as int) =~= s.subrange(
                    k + 1,
                    k + 1 + p.len(),
                ));
                assert(spec_match_at(s, p, k + 1));
            }
        }
        lemma_find_sub_miss(s.skip(1), p);
    }
}

/// The first position where the pattern occurs, if any.
pub fn find_sub(s: &Vec<char>, p: &Vec<char>) -> (r: Option<usize>)
    ensures
        match r {
            Some(i) => spec_find_sub(s@, p@) == Some(i as int) && i + p@.len() <= s@.len(),
            None => spec_find_sub(s@, p@) is None,
        },
{
    if p.len() > s.len() {
        proof {
            assert forall|k: int| !spec_match_at(s@, p@, k) by {}
            lemma_find_sub_miss(s@, p@);
        }
        return None;
    }
    if p.len() == 0 {
        proof {
            assert(s@.subrange(0, 0) =~= p@);
            assert(spec_match_at(s@, p@, 0));
            lemma_find_sub_hit(s@, p@, 0);
        }
        return Some(0);
    }
    let n = s.len();
    let mut at: usize = 0;
    while at <= n - p.len()
        invariant
            n == s@.len(),
            1 <= p@.len() <= s@.len(),
            at <= s@.len() - p@.len() + 1,
            forall|k: int| 0 <= k < at ==> !spec_match_at(s@, p@, k),
        decreases s@.len() - p@.len() + 1 - at,
    {
        if match_at(s, p, at) {
            proof {
                lemma_find_sub_hit(s@, p@, at as int);
            }
            return Some(at);
        }
        at = at + 1;
    }
    proof {
        assert forall|k: int| !spec_match_at(s@, p@, k) by {
            if 0 <= k && k + p@.len() <= s@.len() {
                assert(k <= s@.len() - p@.len());
                assert(k < at);
            }
        }
        lemma_find_sub_miss(s@, p@);
    }
    None
}

/// The characters from `from` on; everything when `from` is past the end.
pub fn chars_skip(v: &Vec<char>, from: usize) -> (r: Vec<char>)
    ensures
        r@ == if from <= v@.len() {
            v@.skip(from as int)
        } else {
            Seq::<char>::empty()
        },
{
    let mut out: Vec<char> = Vec::new();
    if from > v.len() {
        return out;
    }
    let mut k: usize = from;
    proof {
        assert(out@ =~= v@.subrange(from as int, from as int));
    }
    while k < v.len()
        invariant
            from <= k <= v@.len(),
            out@ == v@.subrange(from as int, k as int),
        decreases v@.len() - k,
    {
        out.push(v[k]);
        proof {
            assert(v@.subrange(from as int, k as int + 1) =~= v@.subrange(
                from as int,
                k as int,
            ).push(v@[k as int]));
        }
        k = k + 1;
    }
    proof {
        assert(v@.subrange(from as int, v@.len() as int) =~= v@.skip(from as int));
    }
    out
}

/// ASCII lowercase, character by character.
pub open spec fn spec_lower_seq(s: Seq<char>) -> Seq<char> {
    s.map_values(|c: char| crate::rfc2047::spec_ascii_lower(c))
}

/// Lowercases the ASCII letters of `v`.
pub fn lower_chars(v: &Vec<char>) -> (r: Vec<char>)
    ensures
        r@ == spec_lower_seq(v@),
{
    let mut out: Vec<char> = Vec::new();
    let mut i: usize = 0;
    proof {
        assert(out@ =~= spec_lower_seq(v@.take(0)));
    }
    while i < v.len()
        invariant
            i <= v@.len(),
            out@ == spec_lower_seq(v@.take(i as int)),
        decreases v@.len() - i,
    {
        let c = v[i];
        let u = c as u32;
        if 65 <= u && u <= 90 {
            let l = ((u + 32) as u8) as char;
            out.push(l);
            proof {
                assert(l == crate::rfc2047::spec_ascii_lower(c));
            }
        } else {
            out.push(c);
            proof {
                assert(c == crate::rfc2047::spec_ascii_lower(c));
            }
        }
        proof {
            assert(spec_lower_seq(v@.take(i as int + 1)) =~= spec_lower_seq(v@.take(i as int)).push(
                crate::rfc2047::spec_ascii_lower(v@[i as int]),
            ));
        }
        i = i + 1;
    }
    proof {
        assert(v@.take(i as int) =~= v@);
    }
    out
}



/// Every occurrence of `pat` replaced by `rep`, scanning left to right; the
/// empty pattern leaves the string unchanged.
pub open spec fn spec_replace_all(s: Seq<char>, pat: Seq<char>, rep: Seq<char>) -> Seq<char>
    decreases s.len(),
{
    if pat.len() == 0 {
        s
    } else {
        match spec_find_sub(s, pat) {
            None => s,
            Some(i) => if 0 <= i && i + pat.len() <= s.len() {
                s.take(i) + rep + spec_replace_all(s.skip(i + pat.len()), pat, rep)
            } else {
                s
            },
        }
    }
}

/// Replaces every occurrence of `pat` by `rep`.
pub fn replace_all(s: &Vec<char>, pat: &Vec<char>, rep: &Vec<char>) -> (r: Vec<char>)
    ensures
        r@ == spec_replace_all(s@, pat@, rep@),
    decreases s@.len(),
{
    if pat.len() == 0 {
        let mut out: Vec<char> = Vec::new();
        let mut k: usize = 0;
        while k < s.len()
            invariant
                k <= s@.len(),
                out@ == s@.take(k as int),
            decreases s@.len() - k,
        {
            out.push(s[k]);
            proof {
                assert(s@.take(k as int + 1) =~= s@.take(k as int).push(s@[k as int]));
            }
            k = k + 1;
        }
        proof {
            assert(s@.take(k as int) =~= s@);
        }
        return out;
    }
    match find_sub(s, pat) {
        None => {
            let mut out: Vec<char> = Vec::new();
            let mut k: usize = 0;
            while k < s.len()
                invariant
                    k <= s@.len(),
                    out@ == s@.take(k as int),
                decreases s@.len() - k,
            {
                out.push(s[k]);
                proof {
                    assert(s@.take(k as int + 1) =~= s@.take(k as int).push(s@[k as int]));
                }
                k = k + 1;
            }
            proof {
                assert(s@.take(k as int) =~= s@);
            }
            out
        },
        Some(i) => {
            let mut out: Vec<char> = Vec::new();
            let mut k: usize = 0;
            while k < i
                invariant
                    k <= i <= s@.len(),
                    out@ == s@.take(k as int),
                decreases i - k,
            {
                out.push(s[k]);
                proof {
                    assert(s@.take(k as int + 1) =~= s@.take(k as int).push(s@[k as int]));
                }
                k = k + 1;
            }
            let ghost mid0 = out@;
            let mut m: usize = 0;
            while m < rep.len()
                invariant
                    m <= rep@.len(),
                    out@ == mid0 + rep@.take(m as int),
                decreases rep@.len() - m,
            {
                out.push(rep[m]);
                proof {
                    assert(rep@.take(m as int + 1) =~= rep@.take(m as int).push(rep@[m as int]));
                }
                m = m + 1;
            }
            proof {
                assert(rep@.take(m as int) =~= rep@);
            }
            let n = s.len();
            let rest_src = chars_skip_pub(s, i + pat.len());
            let rest = replace_all(&rest_src, pat, rep);
            let ghost mid1 = out@;
            let mut q: usize = 0;
            while q < rest.len()
                invariant
                    q <= rest@.len(),
                    out@ == mid1 + rest@.take(q as int),
                decreases rest@.len() - q,
            {
                out.push(rest[q]);
                proof {
                    assert(rest@.take(q as int + 1) =~= rest@.take(q as int).push(rest@[q as int]));
                }
                q = q + 1;
            }
            proof {
                assert(rest@.take(q as int) =~= rest@);
                assert(out@ =~= s@.take(i as int) + rep@ + spec_replace_all(
                    s@.skip(i + pat@.len()),
                    pat@,
                    rep@,
                ));
            }
            out
        },
    }
}

/// The pieces joined with the separator between consecutive ones.
pub open spec fn spec_join_sep(parts: Seq<Seq<char>>, sep: Seq<char>) -> Seq<char>
    decreases parts.len(),
{
    if parts.len() == 0 {
        Seq::empty()
    } else if parts.len() == 1 {
        parts[0]
    } else {
        parts[0] + sep + spec_join_sep(parts.drop_first(), sep)
    }
}

/// Joining one more piece appends a separator and the piece.
proof fn lemma_join_sep_push(parts: Seq<Seq<char>>, sep: Seq<char>, x: Seq<char>)
    ensures
        spec_join_sep(parts.push(x), sep) == (if parts.len() == 0 {
            x
        } else {
            spec_join_sep(parts, sep) + sep + x
        }),
    decreases parts.len(),
{
    let p = parts.push(x);
    if parts.len() == 0 {
        assert(p.len() == 1);
        assert(p[0] == x);
    } else {
        assert(p[0] == parts[0]);
        assert(p.drop_first() =~= parts.drop_first().push(x));
        lemma_join_sep_push(parts.drop_first(), sep, x);
        assert(spec_join_sep(p, sep) =~= spec_join_sep(parts, sep) + sep + x);
    }
}

/// Joins strings with a separator, as a comma-separated address list is
/// written.
pub fn join_strings(parts: &Vec<String>, sep: &str) -> (r: String)
    ensures
        r@ == spec_join_sep(parts@.map_values(|s: String| s@), sep@),
{
    let ghost views = parts@.map_values(|s: String| s@);
    let mut out = String::new();
    let mut i: usize = 0;
    proof {
        assert(out@ =~= spec_join_sep(views.take(0), sep@));
    }
    while i < parts.len()
        invariant
            i <= parts@.len(),
            views == parts@.map_values(|s: String| s@),
            out@ == spec_join_sep(views.take(i as int), sep@),
        decreases parts@.len() - i,
    {
        if i > 0 {
            out.append(sep);
        }
        out.append(parts[i].as_str());
        proof {
            assert(views[i as int] == parts@[i as int]@);
            assert(views.take(i as int + 1) =~= views.take(i as int).push(views[i as int]));
            lemma_join_sep_push(views.take(i as int), sep@, views[i as int]);
        }
        i = i + 1;
    }
    proof {
        assert(views.take(i as int) =~= views);
    }
    out
}

/// The suffix after the last occurrence of a character; the whole text when
/// the character is absent.
pub open spec fn spec_after_last(s: Seq<char>, c: char) -> Seq<char>
    decreases s.len(),
{
    if s.len() == 0 {
        Seq::empty()
    } else if s.last() == c {
        Seq::empty()
    } else {
        spec_after_last(s.drop_last(), c).push(s.last())
    }
}

/// Cuts the suffix after the last occurrence of a character.
pub fn after_last_char(v: &Vec<char>, c: char) -> (r: Vec<char>)
    ensures
        r@ == spec_after_last(v@, c),
{
    let mut b: usize = v.len();
    proof {
        assert(v@.take(b as int) =~= v@);
        assert(v@.skip(b as int) =~= Seq::<char>::empty());
        assert(spec_after_last(v@, c) =~= spec_after_last(v@.take(b as int), c) + v@.skip(
            b as int,
        ));
    }
    while b > 0 && v[b - 1] != c
        invariant
            b <= v@.len(),
            spec_after_last(v@, c) == spec_after_last(v@.take(b as int), c) + v@.skip(b as int),
        decreases b,
    {
        proof {
            let t = v@.take(b as int);
            assert(t.last() == v@[b as int - 1]);
            assert(t.drop_last() =~= v@.take(b as int - 1));
            assert(v@.skip(b as int - 1) =~= seq![v@[b as int - 1]] + v@.skip(b as int));
            assert(spec_after_last(v@.take(b as int - 1), c) + v@.skip(b as int - 1)
                =~= spec_after_last(t, c) + v@.skip(b as int));
        }
        b = b - 1;
    }
    proof {
        if b > 0 {
            let t = v@.take(b as int);
            assert(t.last() == v@[b as int - 1]);
            assert(spec_after_last(t, c) =~= Seq::<char>::empty());
        } else {
            assert(v@.take(0) =~= Seq::<char>::empty());
        }
        assert(spec_after_last(v@, c) =~= v@.skip(b as int));
    }
    chars_skip(v, b)
}

fn chars_skip_pub(v: &Vec<char>, from: usize) -> (r: Vec<char>)
    requires
        from <= v@.len(),
    ensures
        r@ == v@.skip(from as int),
{
    let mut out: Vec<char> = Vec::new();
    let mut k: usize = from;
    proof {
        assert(out@ =~= v@.subrange(from as int, from as int));
    }
    while k < v.len()
        invariant
            from <= k <= v@.len(),
            out@ == v@.subrange(from as int, k as int),
        decreases v@.len() - k,
    {
        out.push(v[k]);
        proof {
            assert(v@.subrange(from as int, k as int + 1) =~= v@.subrange(
                from as int,
                k as int,
            ).push(v@[k as int]));
        }
        k = k + 1;
    }
    proof {
        assert(v@.subrange(from as int, v@.len() as int) =~= v@.skip(from as int));
    }
    out
}

} // verus!
