//! IMAP UID sequence-set compaction: a set of UIDs is sent on the wire as a
//! comma-separated list in which runs of consecutive UIDs collapse to `a:b`.

use vstd::prelude::*;

use crate::textutil::{
    chars_to_string, push_u64_digits, spec_all_digits, spec_digits_val, spec_is_digit,
    spec_u64_digits, str_to_chars, lemma_digits_roundtrip, spec_digit_val, spec_split,
    spec_parse_u32, split_chars, parse_u32_chars, lemma_split_no_sep, lemma_split_append,
    lemma_digits_len,
};

verus! {

pub open spec fn spec_u32_le(a: u32, b: u32) -> bool {
    a <= b
}

pub open spec fn spec_sorted(s: Seq<u32>) -> bool {
    forall|i: int, j: int| 0 <= i < j < s.len() ==> s[i] <= s[j]
}

/// The input sorted ascending; the canonical sorted permutation.
pub open spec fn spec_sort(s: Seq<u32>) -> Seq<u32> {
    s.sort_by(|a: u32, b: u32| a <= b)
}

/// The maximal runs of a sorted sequence, starting from an open run
/// `(start, end)`: each element extends the open run when it is exactly
/// `end + 1`, and closes it otherwise.
pub open spec fn spec_runs_from(s: Seq<u32>, start: u32, end: u32) -> Seq<(u32, u32)>
    decreases s.len(),
{
    if s.len() == 0 {
        seq![(start, end)]
    } else if s[0] == end as int + 1 {
        spec_runs_from(s.drop_first(), start, s[0])
    } else {
        seq![(start, end)] + spec_runs_from(s.drop_first(), s[0], s[0])
    }
}

pub open spec fn spec_runs(s: Seq<u32>) -> Seq<(u32, u32)> {
    if s.len() == 0 {
        Seq::empty()
    } else {
        spec_runs_from(s.drop_first(), s[0], s[0])
    }
}

/// A single run rendered as `a` or `a:b`.
pub open spec fn spec_run_str(r: (u32, u32)) -> Seq<char> {
    if r.0 == r.1 {
        spec_u64_digits(r.0 as int)
    } else {
        spec_u64_digits(r.0 as int) + seq![':'] + spec_u64_digits(r.1 as int)
    }
}

/// Runs joined with commas.
pub open spec fn spec_join_runs(rs: Seq<(u32, u32)>) -> Seq<char>
    decreases rs.len(),
{
    if rs.len() == 0 {
        Seq::empty()
    } else if rs.len() == 1 {
        spec_run_str(rs[0])
    } else {
        spec_run_str(rs[0]) + seq![','] + spec_join_runs(rs.drop_first())
    }
}

/// The wire form of a UID set: its sorted order, compacted into runs.
pub open spec fn spec_uid_sequence(uids: Seq<u32>) -> Seq<char> {
    spec_join_runs(spec_runs(spec_sort(uids)))
}

fn sort_u32(v: &[u32]) -> (r: Vec<u32>)
    ensures
        r@ == spec_sort(v@),
{
    broadcast use vstd::seq_lib::to_multiset_insert, vstd::seq_lib::to_multiset_build;

    let mut r: Vec<u32> = Vec::new();
    let mut i: usize = 0;
    proof {
        assert(r@ =~= v@.take(0));
    }
    while i < v.len()
        invariant
            i <= v@.len(),
            spec_sorted(r@),
            r@.to_multiset() == v@.take(i as int).to_multiset(),
        decreases v@.len() - i,
    {
        let x = v[i];
        let mut j: usize = r.len();
        while j > 0 && r[j - 1] > x
            invariant
                j <= r@.len(),
                forall|k: int| j <= k < r@.len() ==> r@[k] > x,
            decreases j,
        {
            j = j - 1;
        }
        let ghost old_r = r@;
        r.insert(j, x);
        assert forall|p: int, q: int| 0 <= p < q < r@.len() implies r@[p] <= r@[q] by {
            assert(r@ == old_r.insert(j as int, x));
        }
        proof {
            assert(r@ == old_r.insert(j as int, x));
            vstd::seq_lib::to_multiset_insert(old_r, j as int, x);
            assert(v@.take(i as int + 1) =~= v@.take(i as int).push(x));
            vstd::seq_lib::to_multiset_build(v@.take(i as int), x);
        }
        i = i + 1;
    }
    proof {
        assert(v@.take(i as int) =~= v@);
        let leq = |a: u32, b: u32| a <= b;
        v@.lemma_sort_by_ensures(leq);
        assert(vstd::relations::sorted_by(r@, leq)) by {
            assert(forall|p: int, q: int|
                0 <= p < q < r@.len() ==> #[trigger] leq(r@[p], r@[q]));
        }
        vstd::seq_lib::lemma_sorted_unique(r@, spec_sort(v@), leq);
    }
    r
}

/// Appends the wire form of one run to `out`.
fn push_run(start: u32, end: u32, first: bool, out: &mut Vec<char>)
    ensures
        final(out)@ == old(out)@ + (if first { Seq::<char>::empty() } else { seq![','] })
            + spec_run_str((start, end)),
{
    if !first {
        out.push(',');
    }
    push_u64_digits(start as u64, out);
    if start != end {
        out.push(':');
        push_u64_digits(end as u64, out);
    }
    assert(out@ =~= old(out)@ + (if first { Seq::<char>::empty() } else { seq![','] })
        + spec_run_str((start, end)));
}

pub proof fn lemma_runs_from_len(s: Seq<u32>, start: u32, end: u32)
    ensures
        spec_runs_from(s, start, end).len() >= 1,
    decreases s.len(),
{
    if s.len() > 0 {
        if s[0] == end as int + 1 {
            lemma_runs_from_len(s.drop_first(), start, s[0]);
        } else {
            lemma_runs_from_len(s.drop_first(), s[0], s[0]);
        }
    }
}

pub proof fn lemma_run_str_len(r: (u32, u32))
    ensures
        spec_run_str(r).len() >= 1,
{
    crate::textutil::lemma_digits_len(r.0 as int);
}

proof fn lemma_join_runs_nonempty_head(rs: Seq<(u32, u32)>)
    requires
        rs.len() >= 1,
    ensures
        spec_join_runs(rs) == spec_run_str(rs[0])
            + (if rs.len() == 1 { Seq::<char>::empty() } else { seq![','] + spec_join_runs(rs.drop_first()) }),
{
    if rs.len() == 1 {
        assert(spec_join_runs(rs) =~= spec_run_str(rs[0]));
    }
}

/// Compacts a UID list into the IMAP sequence-set string: sorted ascending,
/// consecutive UIDs collapsed into `a:b` ranges, runs joined with commas.
/// The empty list gives the empty string.
pub fn uids_to_sequence(uids: &[u32]) -> (r: String)
    ensures
        r@ == spec_uid_sequence(uids@),
{
    let sorted = sort_u32(uids);
    let mut out: Vec<char> = Vec::new();
    if sorted.len() == 0 {
        assert(spec_uid_sequence(uids@) =~= Seq::<char>::empty());
        return chars_to_string(&out);
    }

    let ghost sseq = sorted@;
    let mut range_start: u32 = sorted[0];
    let mut range_end: u32 = sorted[0];
    let mut i: usize = 1;
    let ghost all_runs = spec_runs(sseq);
    proof {
        assert(sseq.drop_first() =~= sseq.skip(1));
    }

    while i < sorted.len()
        invariant
            1 <= i <= sseq.len(),
            sseq == sorted@,
            sseq.len() > 0,
            spec_join_runs(all_runs) == out@
                + (if out@.len() == 0 { Seq::<char>::empty() } else { seq![','] })
                + spec_join_runs(spec_runs_from(sseq.skip(i as int), range_start, range_end)),
            all_runs == spec_runs(sseq),
        decreases sseq.len() - i,
    {
        let uid = sorted[i];
        proof {
            assert(sseq.skip(i as int)[0] == sseq[i as int]);
            assert(sseq.skip(i as int).drop_first() =~= sseq.skip(i as int + 1));
        }
        if range_end < u32::MAX && uid == range_end + 1 {
            proof {
                assert(spec_runs_from(sseq.skip(i as int), range_start, range_end)
                    == spec_runs_from(sseq.skip(i as int + 1), range_start, uid));
            }
            range_end = uid;
        } else {
            let ghost rest = spec_runs_from(sseq.skip(i as int + 1), uid, uid);
            let ghost whole = seq![(range_start, range_end)] + rest;
            proof {
                assert(sseq.skip(i as int)[0] as int != range_end as int + 1);
                assert(spec_runs_from(sseq.skip(i as int), range_start, range_end) == whole);
                lemma_runs_from_len(sseq.skip(i as int + 1), uid, uid);
                lemma_join_runs_nonempty_head(whole);
                assert(whole.drop_first() =~= rest);
                assert(whole[0] == (range_start, range_end));
                assert(whole.len() >= 2);
                lemma_run_str_len((range_start, range_end));
            }
            let ghost old_out = out@;
            let first = out.len() == 0;
            push_run(range_start, range_end, first, &mut out);
            proof {
                let sep = if old_out.len() == 0 { Seq::<char>::empty() } else { seq![','] };
                assert(spec_join_runs(whole) == spec_run_str((range_start, range_end))
                    + seq![','] + spec_join_runs(rest));
                assert(out@ + seq![','] + spec_join_runs(rest) =~= old_out + sep
                    + spec_join_runs(whole));
                assert(out@.len() > 0);
            }
            range_start = uid;
            range_end = uid;
        }
        i = i + 1;
    }
    proof {
        assert(sseq.skip(i as int) =~= Seq::<u32>::empty());
        assert(spec_runs_from(sseq.skip(i as int), range_start, range_end)
            =~= seq![(range_start, range_end)]);
    }
    let first = out.len() == 0;
    push_run(range_start, range_end, first, &mut out);
    assert(out@ =~= spec_uid_sequence(uids@));
    chars_to_string(&out)
}

/// The UIDs `a ..= b`, ascending.
pub open spec fn spec_range_seq(a: u32, b: u32) -> Seq<u32> {
    if a <= b {
        Seq::new((b - a + 1) as nat, |k: int| (a + k) as u32)
    } else {
        Seq::empty()
    }
}

/// One comma-separated item of a sequence set: `a` or `a:b` with `a <= b`.
pub open spec fn spec_parse_item(s: Seq<char>) -> Option<(u32, u32)> {
    let parts = spec_split(s, ':');
    if parts.len() == 1 {
        match spec_parse_u32(parts[0]) {
            Some(v) => Some((v, v)),
            None => None,
        }
    } else if parts.len() == 2 {
        match (spec_parse_u32(parts[0]), spec_parse_u32(parts[1])) {
            (Some(a), Some(b)) => if a <= b {
                Some((a, b))
            } else {
                None
            },
            _ => None,
        }
    } else {
        None
    }
}

pub open spec fn spec_parse_items(items: Seq<Seq<char>>) -> Option<Seq<u32>>
    decreases items.len(),
{
    if items.len() == 0 {
        Some(Seq::empty())
    } else {
        match spec_parse_items(items.drop_last()) {
            None => None,
            Some(acc) => match spec_parse_item(items.last()) {
                None => None,
                Some(r) => Some(acc + spec_range_seq(r.0, r.1)),
            },
        }
    }
}

/// The UID set denoted by a sequence-set string; the empty string denotes the
/// empty set, and a malformed string denotes nothing.
pub open spec fn spec_parse_sequence(s: Seq<char>) -> Option<Seq<u32>> {
    if s.len() == 0 {
        Some(Seq::empty())
    } else {
        spec_parse_items(spec_split(s, ','))
    }
}

fn push_range(a: u32, b: u32, out: &mut Vec<u32>)
    requires
        a <= b,
    ensures
        final(out)@ == old(out)@ + spec_range_seq(a, b),
{
    let mut cur: u32 = a;
    while cur < b
        invariant
            a <= cur <= b,
            out@ == old(out)@ + spec_range_seq(a, b).take(cur - a),
        decreases b - cur,
    {
        out.push(cur);
        proof {
            assert(spec_range_seq(a, b).take(cur - a + 1) =~= spec_range_seq(a, b).take(
                cur - a,
            ).push(cur));
        }
        cur = cur + 1;
    }
    out.push(b);
    proof {
        assert(spec_range_seq(a, b).take(b - a).push(b) =~= spec_range_seq(a, b));
    }
}

fn parse_item_chars(piece: &Vec<char>, out: &mut Vec<u32>) -> (ok: bool)
    ensures
        ok ==> spec_parse_item(piece@) is Some && final(out)@ == old(out)@ + spec_range_seq(
            (spec_parse_item(piece@)->0).0,
            (spec_parse_item(piece@)->0).1,
        ),
        !ok ==> spec_parse_item(piece@) is None && final(out)@ == old(out)@,
{
    let parts = split_chars(piece, ':');
    proof {
        assert(parts@.map_values(|p: Vec<char>| p@).len() == parts@.len());
    }
    if parts.len() == 1 {
        proof {
            assert(parts@.map_values(|p: Vec<char>| p@)[0] == parts@[0]@);
        }
        match parse_u32_chars(parts[0].as_slice()) {
            Some(v) => {
                push_range(v, v, out);
                true
            },
            None => false,
        }
    } else if parts.len() == 2 {
        proof {
            assert(parts@.map_values(|p: Vec<char>| p@)[0] == parts@[0]@);
            assert(parts@.map_values(|p: Vec<char>| p@)[1] == parts@[1]@);
        }
        let a = parse_u32_chars(parts[0].as_slice());
        let b = parse_u32_chars(parts[1].as_slice());
        match (a, b) {
            (Some(a), Some(b)) => {
                if a <= b {
                    push_range(a, b, out);
                    true
                } else {
                    false
                }
            },
            _ => false,
        }
    } else {
        false
    }
}

/// Parses a sequence-set string back into the UID list it denotes, each `a:b`
/// range expanded; `None` on a malformed string.
pub fn parse_uid_sequence(s: &str) -> (r: Option<Vec<u32>>)
    ensures
        match r {
            Some(v) => spec_parse_sequence(s@) == Some(v@),
            None => spec_parse_sequence(s@) is None,
        },
{
    let chars = str_to_chars(s);
    let mut out: Vec<u32> = Vec::new();
    if chars.len() == 0 {
        return Some(out);
    }
    let items = split_chars(&chars, ',');
    let ghost ispecs = items@.map_values(|p: Vec<char>| p@);
    let mut i: usize = 0;
    proof {
        assert(ispecs.take(0) =~= Seq::<Seq<char>>::empty());
    }
    while i < items.len()
        invariant
            i <= items@.len(),
            ispecs == items@.map_values(|p: Vec<char>| p@),
            spec_parse_items(ispecs.take(i as int)) == Some(out@),
            s@.len() > 0,
            ispecs == spec_split(s@, ','),
        decreases items@.len() - i,
    {
        proof {
            assert(ispecs.take(i as int + 1).drop_last() =~= ispecs.take(i as int));
            assert(ispecs.take(i as int + 1).last() == ispecs[i as int]);
            assert(ispecs[i as int] == items@[i as int]@);
        }
        let ok = parse_item_chars(&items[i], &mut out);
        if !ok {
            proof {
                assert(ispecs.len() == items@.len());
                lemma_parse_items_fail(ispecs, i as int);
                assert(s@.len() > 0);
                assert(spec_parse_sequence(s@) == spec_parse_items(ispecs));
            }
            return None;
        }
        i = i + 1;
    }
    proof {
        assert(ispecs.take(i as int) =~= ispecs);
    }
    Some(out)
}

pub open spec fn spec_expand_runs(rs: Seq<(u32, u32)>) -> Seq<u32>
    decreases rs.len(),
{
    if rs.len() == 0 {
        Seq::empty()
    } else {
        spec_expand_runs(rs.drop_last()) + spec_range_seq(rs.last().0, rs.last().1)
    }
}

pub open spec fn spec_covered(rs: Seq<(u32, u32)>, x: u32) -> bool {
    exists|i: int| 0 <= i < rs.len() && (#[trigger] rs[i]).0 <= x <= rs[i].1
}

proof fn lemma_run_str_no_comma(r: (u32, u32))
    ensures
        forall|i: int| 0 <= i < spec_run_str(r).len() ==> spec_run_str(r)[i] != ',',
{
    lemma_digits_roundtrip(r.0 as int);
    lemma_digits_roundtrip(r.1 as int);
    let s = spec_run_str(r);
    let da = spec_u64_digits(r.0 as int);
    let db = spec_u64_digits(r.1 as int);
    assert forall|i: int| 0 <= i < s.len() implies s[i] != ',' by {
        if r.0 == r.1 {
            assert(spec_is_digit(da[i]));
        } else {
            if i < da.len() {
                assert(s[i] == da[i]);
                assert(spec_is_digit(da[i]));
            } else if i == da.len() {
                assert(s[i] == ':');
            } else {
                assert(s[i] == db[i - da.len() - 1]);
                assert(spec_is_digit(db[i - da.len() - 1]));
            }
        }
    }
}

proof fn lemma_join_runs_len(rs: Seq<(u32, u32)>)
    requires
        rs.len() >= 1,
    ensures
        spec_join_runs(rs).len() >= 1,
{
    lemma_run_str_len(rs[0]);
    lemma_join_runs_nonempty_head(rs);
}

/// Splitting the joined runs on commas recovers the run strings.
proof fn lemma_split_join_runs(rs: Seq<(u32, u32)>)
    requires
        rs.len() >= 1,
    ensures
        spec_split(spec_join_runs(rs), ',') == rs.map_values(|r: (u32, u32)| spec_run_str(r)),
    decreases rs.len(),
{
    lemma_run_str_no_comma(rs[0]);
    if rs.len() == 1 {
        lemma_split_no_sep(spec_run_str(rs[0]), ',');
        assert(spec_join_runs(rs) == spec_run_str(rs[0]));
        assert(spec_split(spec_join_runs(rs), ',') =~~= rs.map_values(
            |r: (u32, u32)| spec_run_str(r),
        ));
    } else {
        lemma_split_join_runs(rs.drop_first());
        lemma_split_no_sep(spec_run_str(rs[0]), ',');
        lemma_split_append(spec_run_str(rs[0]), spec_join_runs(rs.drop_first()), ',');
        assert(spec_join_runs(rs) == spec_run_str(rs[0]) + seq![','] + spec_join_runs(
            rs.drop_first(),
        ));
        assert(spec_split(spec_join_runs(rs), ',') == seq![spec_run_str(rs[0])]
            + rs.drop_first().map_values(|r: (u32, u32)| spec_run_str(r)));
        assert(spec_split(spec_join_runs(rs), ',') =~~= rs.map_values(
            |r: (u32, u32)| spec_run_str(r),
        ));
    }
}

/// Parsing the wire form of one run gives the run back.
proof fn lemma_parse_item_run(r: (u32, u32))
    requires
        r.0 <= r.1,
    ensures
        spec_parse_item(spec_run_str(r)) == Some(r),
{
    lemma_digits_roundtrip(r.0 as int);
    lemma_digits_roundtrip(r.1 as int);
    let da = spec_u64_digits(r.0 as int);
    let db = spec_u64_digits(r.1 as int);
    assert forall|i: int| 0 <= i < da.len() implies da[i] != ':' by {
        assert(spec_is_digit(da[i]));
    }
    assert forall|i: int| 0 <= i < db.len() implies db[i] != ':' by {
        assert(spec_is_digit(db[i]));
    }
    if r.0 == r.1 {
        lemma_split_no_sep(da, ':');
        assert(spec_parse_u32(da) == Some(r.0));
    } else {
        lemma_split_no_sep(da, ':');
        lemma_split_no_sep(db, ':');
        lemma_split_append(da, db, ':');
        assert(spec_run_str(r) == da + seq![':'] + db);
        assert(spec_split(spec_run_str(r), ':') == seq![da] + seq![db]);
        assert((seq![da] + seq![db]).len() == 2);
        assert((seq![da] + seq![db])[0] == da);
        assert((seq![da] + seq![db])[1] == db);
        assert(spec_parse_u32(da) == Some(r.0));
        assert(spec_parse_u32(db) == Some(r.1));
    }
}

/// Every run emitted by the compactor is well ordered.
proof fn lemma_runs_from_bounds(s: Seq<u32>, start: u32, end: u32)
    requires
        start <= end,
    ensures
        forall|i: int| 0 <= i < spec_runs_from(s, start, end).len() ==> (#[trigger] spec_runs_from(
            s,
            start,
            end,
        )[i]).0 <= spec_runs_from(s, start, end)[i].1,
    decreases s.len(),
{
    if s.len() == 0 {
        let rs = spec_runs_from(s, start, end);
        assert(rs == seq![(start, end)]);
        assert forall|i: int| 0 <= i < rs.len() implies (#[trigger] rs[i]).0 <= rs[i].1 by {
            assert(rs[i] == (start, end));
        }
    } else {
        if s[0] == end as int + 1 {
            lemma_runs_from_bounds(s.drop_first(), start, s[0]);
            assert(spec_runs_from(s, start, end) == spec_runs_from(s.drop_first(), start, s[0]));
        } else {
            lemma_runs_from_bounds(s.drop_first(), s[0], s[0]);
            let rest = spec_runs_from(s.drop_first(), s[0], s[0]);
            let whole = seq![(start, end)] + rest;
            assert forall|i: int| 0 <= i < whole.len() implies (#[trigger] whole[i]).0
                <= whole[i].1 by {
                if i > 0 {
                    assert(whole[i] == rest[i - 1]);
                }
            }
        }
    }
}

/// Well-ordered runs parse back to their expansion.
proof fn lemma_parse_items_expand(rs: Seq<(u32, u32)>)
    requires
        forall|i: int| 0 <= i < rs.len() ==> (#[trigger] rs[i]).0 <= rs[i].1,
    ensures
        spec_parse_items(rs.map_values(|r: (u32, u32)| spec_run_str(r))) == Some(
            spec_expand_runs(rs),
        ),
    decreases rs.len(),
{
    let items = rs.map_values(|r: (u32, u32)| spec_run_str(r));
    if rs.len() == 0 {
        assert(items.len() == 0);
        assert(spec_expand_runs(rs) =~= Seq::<u32>::empty());
    } else {
        lemma_parse_items_expand(rs.drop_last());
        lemma_parse_item_run(rs.last());
        assert(items.drop_last() =~~= rs.drop_last().map_values(
            |r: (u32, u32)| spec_run_str(r),
        ));
        assert(items.last() == spec_run_str(rs.last()));
    }
}

proof fn lemma_range_seq_contains(a: u32, b: u32, x: u32)
    ensures
        spec_range_seq(a, b).contains(x) <==> a <= x <= b,
{
    if a <= x <= b {
        assert(spec_range_seq(a, b)[x - a] == x);
    }
}

/// The expansion holds exactly the covered UIDs.
proof fn lemma_expand_contains(rs: Seq<(u32, u32)>, x: u32)
    ensures
        spec_expand_runs(rs).contains(x) <==> spec_covered(rs, x),
    decreases rs.len(),
{
    if rs.len() == 0 {
    } else {
        lemma_expand_contains(rs.drop_last(), x);
        lemma_range_seq_contains(rs.last().0, rs.last().1, x);
        let front = spec_expand_runs(rs.drop_last());
        let back = spec_range_seq(rs.last().0, rs.last().1);
        assert(spec_expand_runs(rs) == front + back);
        if spec_expand_runs(rs).contains(x) {
            let k = choose|k: int| 0 <= k < (front + back).len() && (front + back)[k] == x;
            if k < front.len() {
                assert(front.contains(x));
                let i = choose|i: int| 0 <= i < rs.drop_last().len() && (#[trigger] rs.drop_last()[
                    i]).0 <= x <= rs.drop_last()[i].1;
                assert(rs[i] == rs.drop_last()[i]);
                assert(spec_covered(rs, x));
            } else {
                assert(back[k - front.len()] == x);
                assert(back.contains(x));
                assert((rs[rs.len() - 1]).0 <= x <= rs[rs.len() - 1].1);
                assert(spec_covered(rs, x));
            }
        }
        if spec_covered(rs, x) {
            let i = choose|i: int| 0 <= i < rs.len() && (#[trigger] rs[i]).0 <= x <= rs[i].1;
            if i < rs.len() - 1 {
                assert(rs.drop_last()[i] == rs[i]);
                assert(spec_covered(rs.drop_last(), x));
                assert(front.contains(x));
                let k = choose|k: int| 0 <= k < front.len() && front[k] == x;
                assert((front + back)[k] == x);
            } else {
                assert(back.contains(x));
                let k = choose|k: int| 0 <= k < back.len() && back[k] == x;
                assert((front + back)[front.len() + k] == x);
            }
        }
    }
}

/// The runs of a sequence cover its elements together with the open run.
proof fn lemma_runs_cover(s: Seq<u32>, start: u32, end: u32, x: u32)
    requires
        start <= end,
    ensures
        spec_covered(spec_runs_from(s, start, end), x) <==> (start <= x <= end || s.contains(x)),
    decreases s.len(),
{
    let rs = spec_runs_from(s, start, end);
    if s.len() == 0 {
        assert(rs == seq![(start, end)]);
        if start <= x <= end {
            assert(rs[0].0 <= x <= rs[0].1);
        }
    } else if s[0] == end as int + 1 {
        lemma_runs_cover(s.drop_first(), start, s[0], x);
        assert(rs == spec_runs_from(s.drop_first(), start, s[0]));
        assert(s.contains(x) <==> (x == s[0] || s.drop_first().contains(x))) by {
            lemma_seq_head_contains(s, x);
        }
    } else {
        lemma_runs_cover(s.drop_first(), s[0], s[0], x);
        let rest = spec_runs_from(s.drop_first(), s[0], s[0]);
        assert(rs == seq![(start, end)] + rest);
        assert(s.contains(x) <==> (x == s[0] || s.drop_first().contains(x))) by {
            lemma_seq_head_contains(s, x);
        }
        if spec_covered(rs, x) {
            let i = choose|i: int| 0 <= i < rs.len() && (#[trigger] rs[i]).0 <= x <= rs[i].1;
            if i > 0 {
                assert(rs[i] == rest[i - 1]);
                assert(spec_covered(rest, x));
            }
        }
        if start <= x <= end {
            assert(rs[0].0 <= x <= rs[0].1);
        }
        if spec_covered(rest, x) {
            let i = choose|i: int| 0 <= i < rest.len() && (#[trigger] rest[i]).0 <= x <= rest[i].1;
            assert(rs[i + 1] == rest[i]);
        }
    }
}

proof fn lemma_seq_head_contains(s: Seq<u32>, x: u32)
    requires
        s.len() > 0,
    ensures
        s.contains(x) <==> (x == s[0] || s.drop_first().contains(x)),
{
    if s.contains(x) {
        let i = choose|i: int| 0 <= i < s.len() && s[i] == x;
        if i > 0 {
            assert(s.drop_first()[i - 1] == x);
        }
    }
    if s.drop_first().contains(x) {
        let i = choose|i: int| 0 <= i < s.drop_first().len() && s.drop_first()[i] == x;
        assert(s[i + 1] == x);
    }
}

/// Round trip: the compacted wire form of any UID list parses back to exactly
/// the set of those UIDs.
pub proof fn lemma_uid_sequence_roundtrip(uids: Seq<u32>)
    ensures
        spec_parse_sequence(spec_uid_sequence(uids)) matches Some(v) && v.to_set()
            == uids.to_set(),
{
    broadcast use vstd::seq_lib::group_to_multiset_ensures;

    let leq = |a: u32, b: u32| a <= b;
    let s = spec_sort(uids);
    uids.lemma_sort_by_ensures(leq);
    assert(s.to_multiset() == uids.to_multiset());
    assert(s.len() == uids.len()) by {
        assert(s.to_multiset().len() == uids.to_multiset().len());
    }
    if uids.len() == 0 {
        assert(s.len() == 0);
        assert(spec_uid_sequence(uids) =~= Seq::<char>::empty());
        assert(spec_parse_sequence(spec_uid_sequence(uids)) == Some(Seq::<u32>::empty()));
        assert(Seq::<u32>::empty().to_set() =~= uids.to_set());
    } else {
        let rs = spec_runs(s);
        assert(rs == spec_runs_from(s.drop_first(), s[0], s[0]));
        lemma_runs_from_len(s.drop_first(), s[0], s[0]);
        lemma_runs_from_bounds(s.drop_first(), s[0], s[0]);
        lemma_join_runs_len(rs);
        let joined = spec_join_runs(rs);
        assert(spec_uid_sequence(uids) == joined);
        lemma_split_join_runs(rs);
        lemma_parse_items_expand(rs);
        assert(spec_parse_sequence(joined) == Some(spec_expand_runs(rs)));
        let v = spec_expand_runs(rs);
        assert forall|x: u32| v.contains(x) <==> uids.contains(x) by {
            lemma_expand_contains(rs, x);
            lemma_runs_cover(s.drop_first(), s[0], s[0], x);
            lemma_seq_head_contains(s, x);
            assert(s.contains(x) <==> uids.contains(x)) by {
                assert(s.contains(x) <==> s.to_multiset().count(x) > 0);
                assert(uids.contains(x) <==> uids.to_multiset().count(x) > 0);
            }
        }
        assert(v.to_set() =~= uids.to_set());
    }
}

/// A malformed item makes the whole parse fail.
proof fn lemma_parse_items_fail(items: Seq<Seq<char>>, i: int)
    requires
        0 <= i < items.len(),
        spec_parse_item(items[i]) is None,
    ensures
        spec_parse_items(items) is None,
    decreases items.len(),
{
    if items.len() > 0 {
        if i == items.len() - 1 {
            assert(items.last() == items[i]);
        } else {
            lemma_parse_items_fail(items.drop_last(), i);
        }
    }
}

} // verus!
