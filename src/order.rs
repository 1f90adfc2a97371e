//! The listing order of records, and a stable sort by it.
use vstd::prelude::*;
use vstd::string::*;
use vstd::multiset::Multiset;
use vstd::multiset::lemma_multiset_empty_len;
use vstd::seq_lib::{to_multiset_insert, to_multiset_build, to_multiset_len};
use core::cmp::Ordering;
use crate::date::Date;
use crate::record::{Deadline, Record, RecordView, description_text};
use crate::table::record_views;

verus! {

/// Whether a record counts as due on day `today`: a fixed day or an
/// instant once that day has come; daily and always-due records always.
pub open spec fn is_due(r: RecordView, today: Date) -> bool {
    match r.deadline {
        Deadline::Day(d) => d.ordinal() <= today.ordinal(),
        Deadline::Instant(d, _, _) => d.ordinal() <= today.ordinal(),
        Deadline::Daily => true,
        Deadline::Always => true,
        Deadline::Never => false,
    }
}

/// Open and due first, then open and not due, then completed.
pub open spec fn status_key(r: RecordView, today: Date) -> int {
    if r.completed {
        2
    } else if is_due(r, today) {
        0
    } else {
        1
    }
}

/// `(A)` first; no priority after `(Z)`.
pub open spec fn priority_key(r: RecordView) -> int {
    match r.priority {
        Some(p) => p as int,
        None => 26,
    }
}

/// Deadlines by kind: always-due, a fixed day, an instant, daily, none.
pub open spec fn deadline_rank(r: RecordView) -> int {
    match r.deadline {
        Deadline::Always => 0,
        Deadline::Day(_) => 1,
        Deadline::Instant(_, _, _) => 2,
        Deadline::Daily => 3,
        Deadline::Never => 4,
    }
}

/// Fixed days among themselves by calendar day.
pub open spec fn deadline_day(r: RecordView) -> int {
    match r.deadline {
        Deadline::Day(d) => d.ordinal(),
        _ => 0,
    }
}

pub open spec fn cmp_int(a: int, b: int) -> Ordering {
    if a < b {
        Ordering::Less
    } else if a > b {
        Ordering::Greater
    } else {
        Ordering::Equal
    }
}

/// Lexicographic order of character sequences.
pub open spec fn lex_cmp(x: Seq<char>, y: Seq<char>) -> Ordering
    decreases x.len(),
{
    if x.len() == 0 && y.len() == 0 {
        Ordering::Equal
    } else if x.len() == 0 {
        Ordering::Less
    } else if y.len() == 0 {
        Ordering::Greater
    } else if x[0] < y[0] {
        Ordering::Less
    } else if x[0] > y[0] {
        Ordering::Greater
    } else {
        lex_cmp(x.drop_first(), y.drop_first())
    }
}

/// The listing order: status, then priority, then deadline, then creation
/// day where both records carry one, then the description's text.
pub open spec fn compare(a: RecordView, b: RecordView, today: Date) -> Ordering {
    if status_key(a, today) != status_key(b, today) {
        cmp_int(status_key(a, today), status_key(b, today))
    } else if priority_key(a) != priority_key(b) {
        cmp_int(priority_key(a), priority_key(b))
    } else if deadline_rank(a) != deadline_rank(b) {
        cmp_int(deadline_rank(a), deadline_rank(b))
    } else if deadline_day(a) != deadline_day(b) {
        cmp_int(deadline_day(a), deadline_day(b))
    } else if a.creation is Some && b.creation is Some && a.creation->0.ordinal()
        != b.creation->0.ordinal() {
        cmp_int(a.creation->0.ordinal(), b.creation->0.ordinal())
    } else {
        lex_cmp(description_text(a), description_text(b))
    }
}

pub open spec fn le(a: RecordView, b: RecordView, today: Date) -> bool {
    compare(a, b, today) != Ordering::Greater
}

pub open spec fn reverse(o: Ordering) -> Ordering {
    match o {
        Ordering::Less => Ordering::Greater,
        Ordering::Greater => Ordering::Less,
        Ordering::Equal => Ordering::Equal,
    }
}

/// Each adjacent pair is in listing order.
pub open spec fn sorted(s: Seq<RecordView>, today: Date) -> bool {
    forall|i: int| 0 <= i < s.len() - 1 ==> le(#[trigger] s[i], s[i + 1], today)
}

proof fn lemma_lex_reverse(x: Seq<char>, y: Seq<char>)
    ensures
        lex_cmp(y, x) == reverse(lex_cmp(x, y)),
    decreases x.len(),
{
    if x.len() > 0 && y.len() > 0 && x[0] == y[0] {
        lemma_lex_reverse(x.drop_first(), y.drop_first());
    }
}

proof fn lemma_lex_transitive(x: Seq<char>, y: Seq<char>, z: Seq<char>)
    requires
        lex_cmp(x, y) != Ordering::Greater,
        lex_cmp(y, z) != Ordering::Greater,
    ensures
        lex_cmp(x, z) != Ordering::Greater,
        lex_cmp(x, y) == Ordering::Less || lex_cmp(y, z) == Ordering::Less ==> lex_cmp(x, z)
            == Ordering::Less,
    decreases x.len(),
{
    if x.len() > 0 && y.len() > 0 && z.len() > 0 && x[0] == y[0] && y[0] == z[0] {
        lemma_lex_transitive(x.drop_first(), y.drop_first(), z.drop_first());
    }
}

/// The order is antisymmetric: swapping the records reverses the outcome.
pub proof fn lemma_compare_reverse(a: RecordView, b: RecordView, today: Date)
    ensures
        compare(b, a, today) == reverse(compare(a, b, today)),
{
    lemma_lex_reverse(description_text(a), description_text(b));
}

/// The order is transitive, at every level of its tie-break chain, for
/// records that all carry a creation day or all carry none.
pub proof fn lemma_compare_transitive(a: RecordView, b: RecordView, c: RecordView, today: Date)
    requires
        a.creation is Some == b.creation is Some,
        b.creation is Some == c.creation is Some,
        le(a, b, today),
        le(b, c, today),
    ensures
        le(a, c, today),
{
    let (x, y, z) = (description_text(a), description_text(b), description_text(c));
    if lex_cmp(x, y) != Ordering::Greater && lex_cmp(y, z) != Ordering::Greater {
        lemma_lex_transitive(x, y, z);
    }
}

fn cmp_u64(a: u64, b: u64) -> (r: Ordering)
    ensures
        r == cmp_int(a as int, b as int),
{
    if a < b {
        Ordering::Less
    } else if a > b {
        Ordering::Greater
    } else {
        Ordering::Equal
    }
}

/// Compares two strings character by character.
pub fn lex_compare(x: &str, y: &str) -> (r: Ordering)
    ensures
        r == lex_cmp(x@, y@),
{
    let n = x.unicode_len();
    let m = y.unicode_len();
    let mut i: usize = 0;
    assert(x@.skip(0) =~= x@ && y@.skip(0) =~= y@);
    while i < n && i < m
        invariant
            n == x@.len(),
            m == y@.len(),
            i <= n && i <= m,
            lex_cmp(x@, y@) == lex_cmp(x@.skip(i as int), y@.skip(i as int)),
        decreases n - i,
    {
        let a = x.get_char(i);
        let b = y.get_char(i);
        assert(x@.skip(i as int)[0] == a && y@.skip(i as int)[0] == b);
        if a < b {
            return Ordering::Less;
        } else if a > b {
            return Ordering::Greater;
        }
        assert(x@.skip(i as int).drop_first() =~= x@.skip(i + 1));
        assert(y@.skip(i as int).drop_first() =~= y@.skip(i + 1));
        i = i + 1;
    }
    if i < n {
        Ordering::Greater
    } else if i < m {
        Ordering::Less
    } else {
        Ordering::Equal
    }
}

fn date_key(d: Date) -> (k: u64)
    ensures
        k as int == d.ordinal(),
{
    (d.year as u64 * 13 + d.month as u64) * 32 + d.day as u64
}

fn is_due_exec(r: &Record, today: Date) -> (b: bool)
    ensures
        b == is_due(r@, today),
{
    match r.deadline {
        Deadline::Day(d) => date_key(d) <= date_key(today),
        Deadline::Instant(d, _, _) => date_key(d) <= date_key(today),
        Deadline::Daily => true,
        Deadline::Always => true,
        Deadline::Never => false,
    }
}

fn keys(r: &Record, today: Date) -> (k: (u64, u64, u64, u64))
    ensures
        k.0 as int == status_key(r@, today),
        k.1 as int == priority_key(r@),
        k.2 as int == deadline_rank(r@),
        k.3 as int == deadline_day(r@),
{
    let status: u64 = if r.completed {
        2
    } else if is_due_exec(r, today) {
        0
    } else {
        1
    };
    let pri: u64 = match r.priority {
        Some(p) => p as u64,
        None => 26,
    };
    let (rank, day): (u64, u64) = match r.deadline {
        Deadline::Always => (0, 0),
        Deadline::Day(d) => (1, date_key(d)),
        Deadline::Instant(_, _, _) => (2, 0),
        Deadline::Daily => (3, 0),
        Deadline::Never => (4, 0),
    };
    (status, pri, rank, day)
}

/// Compares two records in listing order on day `today`.
pub fn compare_records(a: &Record, b: &Record, today: Date) -> (r: Ordering)
    ensures
        r == compare(a@, b@, today),
{
    let ka = keys(a, today);
    let kb = keys(b, today);
    if ka.0 != kb.0 {
        return cmp_u64(ka.0, kb.0);
    }
    if ka.1 != kb.1 {
        return cmp_u64(ka.1, kb.1);
    }
    if ka.2 != kb.2 {
        return cmp_u64(ka.2, kb.2);
    }
    if ka.3 != kb.3 {
        return cmp_u64(ka.3, kb.3);
    }
    match (a.creation, b.creation) {
        (Some(ca), Some(cb)) => {
            let (x, y) = (date_key(ca), date_key(cb));
            if x != y {
                return cmp_u64(x, y);
            }
        },
        _ => {},
    }
    let ta = a.description_text();
    let tb = b.description_text();
    lex_compare(ta.as_str(), tb.as_str())
}

/// Sorts records into listing order on day `today`. Records that compare
/// equal keep their relative order.
pub fn sort_records(v: Vec<Record>, today: Date) -> (out: Vec<Record>)
    ensures
        record_views(out@).to_multiset() == record_views(v@).to_multiset(),
        sorted(record_views(out@), today),
{
    let ghost orig = record_views(v@);
    let mut v = v;
    let mut out: Vec<Record> = Vec::new();
    proof {
        to_multiset_len(record_views(out@));
        lemma_multiset_empty_len(record_views(out@).to_multiset());
        assert(record_views(out@).to_multiset().add(record_views(v@).to_multiset())
            =~= orig.to_multiset());
    }
    while v.len() > 0
        invariant
            record_views(out@).to_multiset().add(record_views(v@).to_multiset())
                == orig.to_multiset(),
            sorted(record_views(out@), today),
        decreases v.len(),
    {
        let ghost vv = record_views(v@);
        let x = v.pop().unwrap();
        proof {
            assert(vv =~= record_views(v@).push(x@));
            to_multiset_build(record_views(v@), x@);
        }
        let mut j: usize = 0;
        while j < out.len() && matches!(compare_records(&x, &out[j], today), Ordering::Greater)
            invariant
                j <= out.len(),
                forall|k: int| 0 <= k < j ==> compare(x@, #[trigger] out@[k]@, today) == Ordering::Greater,
            decreases out.len() - j,
        {
            j = j + 1;
        }
        let ghost ov = record_views(out@);
        out.insert(j, x);
        proof {
            let nv = record_views(out@);
            assert(nv =~= ov.insert(j as int, x@));
            to_multiset_insert(ov, j as int, x@);
            assert forall|i: int| 0 <= i < nv.len() - 1 implies le(#[trigger] nv[i], nv[i + 1], today) by {
                if i + 1 < j {
                    assert(nv[i] == ov[i] && nv[i + 1] == ov[i + 1]);
                } else if i + 1 == j {
                    assert(nv[i] == out@[i]@);
                    lemma_compare_reverse(x@, nv[i], today);
                } else if i == j {
                    assert(nv[i + 1] == ov[i]);
                } else {
                    assert(nv[i] == ov[i - 1] && nv[i + 1] == ov[i]);
                }
            }
            assert(nv.to_multiset().add(record_views(v@).to_multiset()) =~= orig.to_multiset());
        }
    }
    proof {
        to_multiset_len(record_views(v@));
        lemma_multiset_empty_len(record_views(v@).to_multiset());
    }
    assert(record_views(out@).to_multiset().add(Multiset::empty()) =~= record_views(out@).to_multiset());
    out
}

} // verus!
