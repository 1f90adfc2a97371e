//! Reading a task file's lines into records, writing records back as file
//! text, and the split that archiving makes.
use vstd::prelude::*;
use vstd::string::*;
use vstd::seq_lib::to_multiset_build;
use vstd::multiset::Multiset;
use crate::record::{ParseError, Record, RecordView, parse_line, parse_record, render_line};
use crate::table::record_views;
use crate::text::{split_words, words};

verus! {

/// The records of a file's lines, blank lines skipped; `None` where a
/// line is malformed.
pub open spec fn parse_all(ls: Seq<Seq<char>>) -> Option<Seq<RecordView>>
    decreases ls.len(),
{
    if ls.len() == 0 {
        Some(Seq::empty())
    } else {
        match parse_all(ls.drop_last()) {
            None => None,
            Some(rs) => if words(ls.last()).len() == 0 {
                Some(rs)
            } else {
                match parse_line(ls.last()) {
                    Some(r) => Some(rs.push(r)),
                    None => None,
                }
            },
        }
    }
}

/// File text: one line per record, each ended by a newline.
pub open spec fn file_text(rs: Seq<RecordView>) -> Seq<char>
    decreases rs.len(),
{
    if rs.len() == 0 {
        Seq::empty()
    } else {
        file_text(rs.drop_last()) + render_line(rs.last()) + seq!['\n']
    }
}

pub open spec fn is_open(r: RecordView) -> bool {
    !r.completed
}

pub open spec fn is_done(r: RecordView) -> bool {
    r.completed
}

/// The open records, in order.
pub open spec fn open_part(s: Seq<RecordView>) -> Seq<RecordView> {
    s.filter(|x: RecordView| is_open(x))
}

/// The completed records, in order.
pub open spec fn done_part(s: Seq<RecordView>) -> Seq<RecordView> {
    s.filter(|x: RecordView| is_done(x))
}

pub open spec fn line_views(v: Seq<String>) -> Seq<Seq<char>> {
    v.map_values(|l: String| l@)
}

proof fn lemma_parse_all_none(ls: Seq<Seq<char>>, n: int)
    requires
        0 <= n <= ls.len(),
        parse_all(ls.take(n)) is None,
    ensures
        parse_all(ls) is None,
    decreases ls.len() - n,
{
    if n < ls.len() {
        assert(ls.take(n + 1).drop_last() =~= ls.take(n));
        lemma_parse_all_none(ls, n + 1);
    } else {
        assert(ls.take(n) =~= ls);
    }
}

/// Reads the lines of a task file into records, skipping blank lines.
/// The first malformed line fails the whole read.
pub fn parse_lines(lines: &Vec<String>) -> (r: Result<Vec<Record>, ParseError>)
    ensures
        match parse_all(line_views(lines@)) {
            Some(rs) => r is Ok && record_views(r->Ok_0@) == rs,
            None => r is Err,
        },
{
    let ghost ls = line_views(lines@);
    let mut out: Vec<Record> = Vec::new();
    let mut i: usize = 0;
    assert(ls.take(0) =~= Seq::<Seq<char>>::empty());
    assert(record_views(out@) =~= Seq::<RecordView>::empty());
    while i < lines.len()
        invariant
            i <= lines.len(),
            ls == line_views(lines@),
            parse_all(ls.take(i as int)) == Some(record_views(out@)),
        decreases lines.len() - i,
    {
        let line = lines[i].as_str();
        assert(ls.take(i + 1).drop_last() =~= ls.take(i as int));
        assert(ls.take(i + 1).last() == line@);
        let ws = split_words(line);
        if ws.len() > 0 {
            assert(words(line@).len() > 0);
            match parse_record(line) {
                Ok(rec) => {
                    let ghost ob = record_views(out@);
                    out.push(rec);
                    assert(record_views(out@) =~= ob.push(rec@));
                },
                Err(e) => {
                    proof {
                        lemma_parse_all_none(ls, i + 1);
                    }
                    return Err(e);
                },
            }
        } else {
            assert(words(line@).len() == 0);
        }
        i = i + 1;
    }
    assert(ls.take(i as int) =~= ls);
    Ok(out)
}

/// The file text of records: one line each, in the order given.
pub fn render_file(recs: &Vec<Record>) -> (s: String)
    requires
        forall|i: int| 0 <= i < recs@.len() ==> (#[trigger] recs@[i])@.valid(),
    ensures
        s@ == file_text(record_views(recs@)),
{
    let ghost rv = record_views(recs@);
    let mut s = String::new();
    let mut i: usize = 0;
    assert(rv.take(0) =~= Seq::<RecordView>::empty());
    while i < recs.len()
        invariant
            i <= recs.len(),
            rv == record_views(recs@),
            forall|k: int| 0 <= k < recs@.len() ==> (#[trigger] recs@[k])@.valid(),
            s@ == file_text(rv.take(i as int)),
        decreases recs.len() - i,
    {
        let line = recs[i].render();
        s.append(line.as_str());
        crate::text::push_char(&mut s, '\n');
        assert(rv.take(i + 1).drop_last() =~= rv.take(i as int));
        assert(s@ =~= file_text(rv.take(i + 1)));
        i = i + 1;
    }
    assert(rv.take(i as int) =~= rv);
    s
}

/// Splits records for archiving into those still open, to stay in the
/// task file, and those completed, to go to the archive; each part keeps
/// the records' order.
pub fn archive_split(v: Vec<Record>) -> (r: (Vec<Record>, Vec<Record>))
    ensures
        record_views(r.0@) == open_part(record_views(v@)),
        record_views(r.1@) == done_part(record_views(v@)),
{
    let ghost orig = record_views(v@);
    let ghost po = |x: RecordView| is_open(x);
    let ghost pd = |x: RecordView| is_done(x);
    let mut v = v;
    let mut keep: Vec<Record> = Vec::new();
    let mut done: Vec<Record> = Vec::new();
    let ghost mut k: int = 0;
    assert(orig.take(0) =~= Seq::<RecordView>::empty());
    assert(orig.skip(0) =~= orig);
    while v.len() > 0
        invariant
            0 <= k <= orig.len(),
            record_views(v@) == orig.skip(k),
            record_views(keep@) == orig.take(k).filter(po),
            record_views(done@) == orig.take(k).filter(pd),
            po == (|x: RecordView| is_open(x)),
            pd == (|x: RecordView| is_done(x)),
        decreases v.len(),
    {
        let ghost vb = record_views(v@);
        let ghost raw = v@;
        let r = v.remove(0);
        proof {
            assert(vb[0] == r@);
            assert(vb.len() == record_views(v@).len() + 1);
            assert(orig[k] == vb[0]);
            assert(orig.take(k + 1) =~= orig.take(k).push(r@));
            assert(v@ =~= raw.drop_first());
            assert(record_views(v@) =~= vb.drop_first());
            assert(record_views(v@) =~= orig.skip(k + 1));
            orig.take(k).lemma_filter_push(r@, po);
            orig.take(k).lemma_filter_push(r@, pd);
        }
        if r.completed {
            let ghost db = record_views(done@);
            done.push(r);
            assert(record_views(done@) =~= db.push(r@));
        } else {
            let ghost kb = record_views(keep@);
            keep.push(r);
            assert(record_views(keep@) =~= kb.push(r@));
        }
        proof {
            k = k + 1;
        }
    }
    assert(orig.take(k) =~= orig);
    (keep, done)
}

/// Archiving loses and duplicates nothing: the open part and the completed
/// part together hold exactly the records of the column, the first only
/// open records and the second only completed ones.
pub proof fn lemma_archive_partition(s: Seq<RecordView>)
    ensures
        open_part(s).to_multiset().add(done_part(s).to_multiset()) == s.to_multiset(),
        forall|i: int| 0 <= i < open_part(s).len() ==> !(#[trigger] open_part(s)[i]).completed,
        forall|i: int| 0 <= i < done_part(s).len() ==> (#[trigger] done_part(s)[i]).completed,
    decreases s.len(),
{
    let po = |x: RecordView| is_open(x);
    let pd = |x: RecordView| is_done(x);
    if s.len() == 0 {
        assert(s.filter(po) =~= s && s.filter(pd) =~= s);
        vstd::seq_lib::to_multiset_len(s);
        vstd::multiset::lemma_multiset_empty_len(s.to_multiset());
        assert(s.to_multiset().add(s.to_multiset()) =~= s.to_multiset());
    } else {
        let t = s.drop_last();
        let x = s.last();
        lemma_archive_partition(t);
        assert(s =~= t.push(x));
        t.lemma_filter_push(x, po);
        t.lemma_filter_push(x, pd);
        to_multiset_build(t, x);
        if x.completed {
            to_multiset_build(t.filter(pd), x);
            assert(s.filter(po).to_multiset().add(s.filter(pd).to_multiset())
                =~= s.to_multiset());
        } else {
            to_multiset_build(t.filter(po), x);
            assert(s.filter(po).to_multiset().add(s.filter(pd).to_multiset())
                =~= s.to_multiset());
        }
        s.lemma_filter_len(po);
        s.lemma_filter_len(pd);
        assert forall|i: int| 0 <= i < s.filter(po).len() implies !(#[trigger] s.filter(po)[i]).completed by {
            s.lemma_filter_pred(po, i);
        }
        assert forall|i: int| 0 <= i < s.filter(pd).len() implies (#[trigger] s.filter(pd)[i]).completed by {
            s.lemma_filter_pred(pd, i);
        }
    }
}

} // verus!
