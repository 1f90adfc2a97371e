//! Filters applied to a listing: project tag, context tag, and priority
//! bounds.
use vstd::prelude::*;
use vstd::string::*;
use crate::record::{Record, RecordView};
use crate::tags::has_tag;
use crate::table::record_views;
use crate::date::Date;
use crate::order::{sort_records, sorted};

verus! {

/// Each filter is optional; an absent one lets every record through.
pub struct Filter {
    pub project: Option<String>,
    pub context: Option<String>,
    /// Only records at least this urgent (0 is `(A)`).
    pub min_priority: Option<u8>,
    /// Only records at most this urgent; records without priority pass.
    pub max_priority: Option<u8>,
}

pub struct FilterView {
    pub project: Option<Seq<char>>,
    pub context: Option<Seq<char>>,
    pub min_priority: Option<u8>,
    pub max_priority: Option<u8>,
}

impl View for Filter {
    type V = FilterView;

    open spec fn view(&self) -> FilterView {
        FilterView {
            project: match self.project {
                Some(p) => Some(p@),
                None => None,
            },
            context: match self.context {
                Some(c) => Some(c@),
                None => None,
            },
            min_priority: self.min_priority,
            max_priority: self.max_priority,
        }
    }
}

pub open spec fn project_key() -> Seq<char> {
    seq!['p', 'r', 'o', 'j', 'e', 'c', 't']
}

pub open spec fn context_key() -> Seq<char> {
    seq!['c', 'o', 'n', 't', 'e', 'x', 't']
}

/// Whether a record passes every filter that is set.
pub open spec fn passes(r: RecordView, f: FilterView) -> bool {
    &&& f.project matches Some(p) ==> has_tag(r.description, project_key(), p)
    &&& f.context matches Some(c) ==> has_tag(r.description, context_key(), c)
    &&& f.min_priority matches Some(m) ==> (r.priority matches Some(p) && p <= m)
    &&& f.max_priority matches Some(m) ==> (r.priority matches Some(p) ==> p >= m)
}

pub open spec fn filtered(s: Seq<RecordView>, f: FilterView) -> Seq<RecordView> {
    s.filter(|r: RecordView| passes(r, f))
}

/// Whether a record passes every filter that is set.
pub fn passes_filter(r: &Record, f: &Filter) -> (b: bool)
    ensures
        b == passes(r@, f@),
{
    proof {
        reveal_strlit("project");
        reveal_strlit("context");
        assert("project"@ =~= project_key());
        assert("context"@ =~= context_key());
    }
    let proj = match &f.project {
        Some(p) => r.has_tag("project", p.as_str()),
        None => true,
    };
    let ctx = match &f.context {
        Some(c) => r.has_tag("context", c.as_str()),
        None => true,
    };
    let min = match f.min_priority {
        Some(m) => match r.priority {
            Some(p) => p <= m,
            None => false,
        },
        None => true,
    };
    let max = match f.max_priority {
        Some(m) => match r.priority {
            Some(p) => p >= m,
            None => true,
        },
        None => true,
    };
    proj && ctx && min && max
}

/// Keeps the records that pass the filters, in their order. The records
/// kept are moved, not altered.
pub fn apply_filters(v: Vec<Record>, f: &Filter) -> (out: Vec<Record>)
    ensures
        record_views(out@) == filtered(record_views(v@), f@),
{
    let ghost pred = |r: RecordView| passes(r, f@);
    let ghost orig = record_views(v@);
    let mut v = v;
    let mut rev: Vec<Record> = Vec::new();
    // Records are taken from the back, so the kept ones come out reversed.
    while v.len() > 0
        invariant
            orig.filter(pred) == record_views(v@).filter(pred) + record_views(rev@).reverse(),
            pred == (|r: RecordView| passes(r, f@)),
        decreases v.len(),
    {
        let ghost before = record_views(v@);
        let ghost rb = record_views(rev@);
        let r = v.pop().unwrap();
        proof {
            assert(before =~= record_views(v@).push(r@));
            record_views(v@).lemma_filter_push(r@, pred);
        }
        if passes_filter(&r, f) {
            rev.push(r);
            assert(record_views(rev@) =~= rb.push(r@));
            assert(rb.push(r@).reverse() =~= seq![r@] + rb.reverse());
            assert(record_views(v@).filter(pred).push(r@) + rb.reverse() =~= record_views(v@).filter(
                pred,
            ) + (seq![r@] + rb.reverse()));
        }
    }
    assert(record_views(v@) =~= Seq::empty());
    assert(record_views(v@).filter(pred) =~= Seq::empty());
    let mut out: Vec<Record> = Vec::new();
    let ghost kept = record_views(rev@).reverse();
    assert(orig.filter(pred) =~= kept);
    while rev.len() > 0
        invariant
            kept == record_views(out@) + record_views(rev@).reverse(),
        decreases rev.len(),
    {
        let ghost rb = record_views(rev@);
        let ghost ob = record_views(out@);
        let r = rev.pop().unwrap();
        assert(rb =~= record_views(rev@).push(r@));
        out.push(r);
        assert(record_views(out@) =~= ob.push(r@));
        assert(rb.reverse() =~= seq![r@] + record_views(rev@).reverse());
        assert(kept =~= record_views(out@) + record_views(rev@).reverse());
    }
    assert(record_views(rev@).reverse() =~= Seq::empty());
    assert(kept =~= record_views(out@));
    out
}

/// Filtering keeps records as they were: every record that comes out
/// stands, with every field equal, in the input.
pub proof fn lemma_filter_keeps_records(s: Seq<RecordView>, f: FilterView)
    ensures
        forall|i: int|
            0 <= i < filtered(s, f).len() ==> s.contains(#[trigger] filtered(s, f)[i]),
        filtered(s, f).len() <= s.len(),
{
    let pred = |r: RecordView| passes(r, f);
    s.lemma_filter_len(pred);
    assert forall|i: int| 0 <= i < filtered(s, f).len() implies s.contains(
        #[trigger] filtered(s, f)[i],
    ) by {
        s.lemma_filter_contains_rev(pred, filtered(s, f)[i]);
        assert(s.filter(pred).contains(filtered(s, f)[i]));
    }
}

/// A copy of each record, in order.
pub fn copy_records(v: &Vec<Record>) -> (out: Vec<Record>)
    ensures
        record_views(out@) == record_views(v@),
{
    let mut out: Vec<Record> = Vec::new();
    let mut i: usize = 0;
    while i < v.len()
        invariant
            i <= v.len(),
            record_views(out@) == record_views(v@).take(i as int),
        decreases v.len() - i,
    {
        let ghost ob = record_views(out@);
        out.push(v[i].copy());
        assert(record_views(out@) =~= ob.push(v@[i as int]@));
        assert(record_views(v@).take(i + 1) =~= record_views(v@).take(i as int).push(v@[i as int]@));
        i = i + 1;
    }
    assert(record_views(v@).take(i as int) =~= record_views(v@));
    out
}

/// The listing of a column on day `today`: the records that pass the
/// filters, in listing order. The column itself is left as it is.
pub fn list_records(column: &Vec<Record>, f: &Filter, today: Date) -> (out: Vec<Record>)
    ensures
        record_views(out@).to_multiset() == filtered(record_views(column@), f@).to_multiset(),
        sorted(record_views(out@), today),
{
    let all = copy_records(column);
    let kept = apply_filters(all, f);
    sort_records(kept, today)
}

/// Reads a priority letter, in either case: `a` and `A` stand for 0.
pub fn parse_priority_letter(s: &str) -> (r: Option<u8>)
    ensures
        s@.len() == 1 && 'A' <= s@[0] <= 'Z' ==> r == Some((s@[0] as u32 - 65) as u8),
        s@.len() == 1 && 'a' <= s@[0] <= 'z' ==> r == Some((s@[0] as u32 - 97) as u8),
        !(s@.len() == 1 && ('A' <= s@[0] <= 'Z' || 'a' <= s@[0] <= 'z')) ==> r is None,
{
    if s.unicode_len() != 1 {
        return None;
    }
    let c = s.get_char(0);
    if 'A' <= c && c <= 'Z' {
        Some((c as u32 - 65) as u8)
    } else if 'a' <= c && c <= 'z' {
        Some((c as u32 - 97) as u8)
    } else {
        None
    }
}

} // verus!
