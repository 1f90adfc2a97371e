//! A table of named columns, each an ordered sequence of records.
use vstd::prelude::*;
use vstd::string::*;
use crate::record::{Record, RecordView};
use crate::tags::{meta_value, title};
use crate::text::same_text;

verus! {

/// Errors of table use and of record lookup.
#[derive(Debug)]
pub enum TableError {
    UnknownColumn(String),
    DuplicateColumn(String),
    RecordNotFound(String),
}

pub struct Column {
    pub name: String,
    pub records: Vec<Record>,
}

/// Columns in the order they were added; no two share a name.
pub struct Table {
    columns: Vec<Column>,
}

pub type TableView = Seq<(Seq<char>, Seq<RecordView>)>;

pub open spec fn record_views(v: Seq<Record>) -> Seq<RecordView> {
    v.map_values(|r: Record| r@)
}

pub open spec fn column_views(v: Seq<Column>) -> TableView {
    v.map_values(|c: Column| (c.name@, record_views(c.records@)))
}

pub open spec fn names_unique(t: TableView) -> bool {
    forall|i: int, j: int| 0 <= i < t.len() && 0 <= j < t.len() && i != j ==> t[i].0 != t[j].0
}

pub open spec fn col_index(t: TableView, name: Seq<char>, i: int) -> bool {
    0 <= i < t.len() && t[i].0 == name
}

/// The records of the column called `name`, if there is one.
pub open spec fn column_view(t: TableView, name: Seq<char>) -> Option<Seq<RecordView>> {
    if exists|i: int| col_index(t, name, i) {
        Some(t[choose|i: int| col_index(t, name, i)].1)
    } else {
        None
    }
}

/// `i` is the first position of a record that meets `p`.
pub open spec fn is_first(recs: Seq<RecordView>, p: spec_fn(RecordView) -> bool, i: int) -> bool {
    0 <= i < recs.len() && p(recs[i]) && forall|j: int| 0 <= j < i ==> !p(#[trigger] recs[j])
}

/// The first position of a record that meets `p`.
pub open spec fn first_where(recs: Seq<RecordView>, p: spec_fn(RecordView) -> bool) -> Option<
    int,
> {
    if exists|i: int| is_first(recs, p, i) {
        Some(choose|i: int| is_first(recs, p, i))
    } else {
        None
    }
}

pub open spec fn as_index(o: Option<int>) -> Option<usize> {
    match o {
        Some(i) => Some(i as usize),
        None => None,
    }
}

pub open spec fn titled(text: Seq<char>) -> spec_fn(RecordView) -> bool {
    |r: RecordView| title(r) == text
}

pub open spec fn tagged(key: Seq<char>, value: Seq<char>) -> spec_fn(RecordView) -> bool {
    |r: RecordView| meta_value(r.description, key) == Some(value)
}

pub open spec fn completed_view(r: RecordView) -> RecordView {
    RecordView { completed: true, ..r }
}

/// The position that completion picks: the first record with the title,
/// else the first whose `id:` tag has that value.
pub open spec fn completion_target(recs: Seq<RecordView>, text: Seq<char>) -> Option<int> {
    match first_where(recs, titled(text)) {
        Some(i) => Some(i),
        None => first_where(recs, tagged(seq!['i', 'd'], text)),
    }
}

proof fn lemma_first_unique(recs: Seq<RecordView>, p: spec_fn(RecordView) -> bool, i: int)
    requires
        is_first(recs, p, i),
    ensures
        first_where(recs, p) == Some(i),
{
    let c = choose|k: int| is_first(recs, p, k);
    assert(is_first(recs, p, c));
    if c < i {
        assert(!p(recs[c]));
    } else if c > i {
        assert(!p(recs[i]));
    }
}

proof fn lemma_col_unique(t: TableView, name: Seq<char>, i: int)
    requires
        names_unique(t),
        col_index(t, name, i),
    ensures
        column_view(t, name) == Some(t[i].1),
{
    let c = choose|k: int| col_index(t, name, k);
    assert(col_index(t, name, c));
}

impl View for Table {
    type V = TableView;

    closed spec fn view(&self) -> TableView {
        column_views(self.columns@)
    }
}

impl Table {
    pub open spec fn wf(&self) -> bool {
        names_unique(self@)
    }

    /// An empty table.
    pub fn new() -> (t: Table)
        ensures
            t@ == Seq::<(Seq<char>, Seq<RecordView>)>::empty(),
            t.wf(),
    {
        let t = Table { columns: Vec::new() };
        assert(t@ =~= Seq::<(Seq<char>, Seq<RecordView>)>::empty());
        t
    }

    /// The position of the column called `name`.
    fn find_column(&self, name: &str) -> (r: Option<usize>)
        requires
            self.wf(),
        ensures
            match column_view(self@, name@) {
                Some(recs) => r is Some && col_index(self@, name@, r->0 as int) && self@[r->0 as int].1
                    == recs,
                None => r is None,
            },
    {
        let mut i: usize = 0;
        while i < self.columns.len()
            invariant
                self.wf(),
                i <= self.columns.len(),
                forall|j: int| 0 <= j < i ==> !col_index(self@, name@, j),
            decreases self.columns.len() - i,
        {
            if same_text(self.columns[i].name.as_str(), name) {
                proof {
                    lemma_col_unique(self@, name@, i as int);
                }
                return Some(i);
            }
            i = i + 1;
        }
        None
    }

    /// Adds an empty column; a name already in use is refused and the table
    /// left as it was.
    pub fn add_column(&mut self, name: &str) -> (r: Result<(), TableError>)
        requires
            old(self).wf(),
        ensures
            final(self).wf(),
            match column_view(old(self)@, name@) {
                Some(_) => r is Err && r->Err_0 is DuplicateColumn && final(self)@ == old(self)@,
                None => r is Ok && final(self)@ == old(self)@.push((name@, Seq::empty()))
                    && column_view(final(self)@, name@) == Some(Seq::<RecordView>::empty()),
            },
    {
        match self.find_column(name) {
            Some(_) => Err(TableError::DuplicateColumn(name.to_owned())),
            None => {
                let ghost before = self@;
                let col = Column { name: name.to_owned(), records: Vec::new() };
                assert(record_views(col.records@) =~= Seq::empty());
                self.columns.push(col);
                assert(self@ =~= before.push((name@, Seq::empty())));
                assert(forall|j: int| 0 <= j < before.len() ==> !col_index(before, name@, j));
                assert forall|a: int, b: int|
                    0 <= a < self@.len() && 0 <= b < self@.len() && a != b implies self@[a].0
                    != self@[b].0 by {
                    if a < before.len() && b < before.len() {
                        assert(self@[a] == before[a] && self@[b] == before[b]);
                    } else if a < before.len() {
                        assert(!col_index(before, name@, a));
                    } else {
                        assert(!col_index(before, name@, b));
                    }
                }
                proof {
                    lemma_col_unique(self@, name@, before.len() as int);
                }
                Ok(())
            },
        }
    }

    /// Appends a record to the end of a column.
    pub fn add_record(&mut self, record: Record, column: &str) -> (r: Result<(), TableError>)
        requires
            old(self).wf(),
        ensures
            final(self).wf(),
            match column_view(old(self)@, column@) {
                Some(recs) => r is Ok && column_view(final(self)@, column@) == Some(recs.push(record@))
                    && (forall|i: int| #[trigger]
                    col_index(old(self)@, column@, i) ==> final(self)@ == old(self)@.update(
                        i,
                        (column@, recs.push(record@)),
                    )),
                None => r is Err && r->Err_0 is UnknownColumn && final(self)@ == old(self)@,
            },
    {
        match self.find_column(column) {
            None => Err(TableError::UnknownColumn(column.to_owned())),
            Some(c) => {
                let ghost before = self@;
                let ghost rv = record@;
                let mut col = self.columns.remove(c);
                let ghost recs = record_views(col.records@);
                col.records.push(record);
                assert(record_views(col.records@) =~= recs.push(rv));
                self.columns.insert(c, col);
                assert(self@ =~= before.update(c as int, (column@, recs.push(rv))));
                proof {
                    lemma_col_unique(self@, column@, c as int);
                }
                Ok(())
            },
        }
    }

    /// The records of a column, in the order they were added.
    pub fn column(&self, name: &str) -> (r: Option<&Vec<Record>>)
        requires
            self.wf(),
        ensures
            match column_view(self@, name@) {
                Some(recs) => r is Some && record_views(r->0@) == recs,
                None => r is None,
            },
    {
        match self.find_column(name) {
            Some(c) => Some(&self.columns[c].records),
            None => None,
        }
    }

    /// The position of the first record of a column whose title is `text`.
    pub fn find_by_title(&self, column: &str, text: &str) -> (r: Option<usize>)
        requires
            self.wf(),
        ensures
            match column_view(self@, column@) {
                Some(recs) => r == as_index(first_where(recs, titled(text@))),
                None => r is None,
            },
    {
        let c = match self.find_column(column) {
            Some(c) => c,
            None => return None,
        };
        let recs = &self.columns[c].records;
        let ghost rv = record_views(recs@);
        assert(rv == self@[c as int].1);
        let mut i: usize = 0;
        while i < recs.len()
            invariant
                i <= recs.len(),
                rv == record_views(recs@),
                column_view(self@, column@) == Some(rv),
                forall|j: int| 0 <= j < i ==> !titled(text@)(#[trigger] rv[j]),
            decreases recs.len() - i,
        {
            let t = recs[i].title();
            if same_text(t.as_str(), text) {
                proof {
                    assert(is_first(rv, titled(text@), i as int));
                    lemma_first_unique(rv, titled(text@), i as int);
                }
                return Some(i);
            }
            i = i + 1;
        }
        assert(!exists|k: int| is_first(rv, titled(text@), k));
        None
    }

    /// The position of the first record of a column whose first tag with
    /// key `key` has value `value`.
    pub fn find_by_meta(&self, column: &str, key: &str, value: &str) -> (r: Option<usize>)
        requires
            self.wf(),
        ensures
            match column_view(self@, column@) {
                Some(recs) => r == as_index(first_where(recs, tagged(key@, value@))),
                None => r is None,
            },
    {
        let c = match self.find_column(column) {
            Some(c) => c,
            None => return None,
        };
        let recs = &self.columns[c].records;
        let ghost rv = record_views(recs@);
        assert(rv == self@[c as int].1);
        let mut i: usize = 0;
        while i < recs.len()
            invariant
                i <= recs.len(),
                rv == record_views(recs@),
                column_view(self@, column@) == Some(rv),
                forall|j: int| 0 <= j < i ==> !tagged(key@, value@)(#[trigger] rv[j]),
            decreases recs.len() - i,
        {
            let found = match recs[i].meta(key) {
                Some(v) => same_text(v.as_str(), value),
                None => false,
            };
            if found {
                proof {
                    assert(is_first(rv, tagged(key@, value@), i as int));
                    lemma_first_unique(rv, tagged(key@, value@), i as int);
                }
                return Some(i);
            }
            i = i + 1;
        }
        assert(!exists|k: int| is_first(rv, tagged(key@, value@), k));
        None
    }

    /// Marks the record at position `index` of column number `c` completed.
    fn complete_at(&mut self, c: usize, index: usize)
        requires
            c < old(self)@.len(),
            index < old(self)@[c as int].1.len(),
        ensures
            final(self)@ == old(self)@.update(
                c as int,
                (
                    old(self)@[c as int].0,
                    old(self)@[c as int].1.update(
                        index as int,
                        completed_view(old(self)@[c as int].1[index as int]),
                    ),
                ),
            ),
    {
        let ghost before = self@;
        let mut col = self.columns.remove(c);
        let ghost recs = record_views(col.records@);
        let mut rec = col.records.remove(index);
        rec.completed = true;
        assert(rec@ == completed_view(recs[index as int]));
        col.records.insert(index, rec);
        assert(record_views(col.records@) =~= recs.update(index as int, rec@));
        self.columns.insert(c, col);
        assert(self@ =~= before.update(c as int, (before[c as int].0, recs.update(index as int, rec@))));
    }

    /// Completes the first record of a column whose title is `text`, or,
    /// where no title matches, the first whose `id:` tag is `text`.
    /// Returns the position of the record completed.
    pub fn complete_matching(&mut self, column: &str, text: &str) -> (r: Result<usize, TableError>)
        requires
            old(self).wf(),
        ensures
            final(self).wf(),
            match column_view(old(self)@, column@) {
                None => r is Err && r->Err_0 is UnknownColumn && final(self)@ == old(self)@,
                Some(recs) => match completion_target(recs, text@) {
                    None => r is Err && r->Err_0 is RecordNotFound && final(self)@ == old(self)@,
                    Some(i) => r == Ok::<usize, TableError>(i as usize) && column_view(
                        final(self)@,
                        column@,
                    ) == Some(recs.update(i, completed_view(recs[i]))),
                },
            },
    {
        let c = match self.find_column(column) {
            Some(c) => c,
            None => return Err(TableError::UnknownColumn(column.to_owned())),
        };
        let target = match self.find_by_title(column, text) {
            Some(i) => Some(i),
            None => {
                proof {
                    reveal_strlit("id");
                    assert("id"@ =~= seq!['i', 'd']);
                }
                self.find_by_meta(column, "id", text)
            },
        };
        match target {
            None => Err(TableError::RecordNotFound(text.to_owned())),
            Some(i) => {
                let n = self.columns[c].records.len();
                proof {
                    let recs = self@[c as int].1;
                    let p = if first_where(recs, titled(text@)) is Some {
                        titled(text@)
                    } else {
                        tagged(seq!['i', 'd'], text@)
                    };
                    let k = choose|k: int| is_first(recs, p, k);
                    assert(is_first(recs, p, k));
                    assert(first_where(recs, p) == Some(k));
                    assert(recs.len() == n);
                    assert(k == i as int);
                    assert(completion_target(recs, text@) == Some(i as int));
                }
                let ghost before = self@;
                self.complete_at(c, i);
                proof {
                    assert forall|a: int, b: int|
                        0 <= a < self@.len() && 0 <= b < self@.len() && a != b implies self@[a].0
                        != self@[b].0 by {
                        assert(self@[a].0 == before[a].0);
                        assert(self@[b].0 == before[b].0);
                    }
                    lemma_col_unique(self@, column@, c as int);
                }
                Ok(i)
            },
        }
    }
}

} // verus!
