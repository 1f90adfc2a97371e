//! A task record and its line format:
//! `[x] [(P)] [YYYY-MM-DD] word word key:value ...`.
use vstd::prelude::*;
use vstd::string::*;
use crate::date::{
    Date, date_of, date_text, instant_text, is_date_text, is_instant_text, num2, parse_date,
    parse_instant, render_date, lemma_date_text, lemma_instant_text,
};
use crate::text::{
    all_words, is_word, join, words, word_len, join_words, split_words, lemma_words_join,
    lemma_word_len_bound, is_space, same_text,
};

verus! {

/// When a record falls due.
#[derive(Clone, Copy, Debug, PartialEq, Eq, Structural)]
pub enum Deadline {
    /// No deadline.
    Never,
    /// Due on a fixed day.
    Day(Date),
    /// Due every day.
    Daily,
    /// Due from a day, hour and minute on.
    Instant(Date, u8, u8),
    /// Always due.
    Always,
}

impl Deadline {
    pub open spec fn valid(self) -> bool {
        match self {
            Deadline::Day(d) => d.valid(),
            Deadline::Instant(d, h, m) => d.valid() && h < 24 && m < 60,
            _ => true,
        }
    }
}

/// One task. The description keeps every word of the line after the
/// prefix markers, tags included; the deadline is read from its `due:` tag.
#[derive(Debug)]
pub struct Record {
    pub completed: bool,
    /// 0 stands for `(A)`, 25 for `(Z)`; `None` is weaker than any of them.
    pub priority: Option<u8>,
    pub creation: Option<Date>,
    pub deadline: Deadline,
    pub description: Vec<String>,
}

pub struct RecordView {
    pub completed: bool,
    pub priority: Option<u8>,
    pub creation: Option<Date>,
    pub deadline: Deadline,
    pub description: Seq<Seq<char>>,
}

pub open spec fn string_views(v: Seq<String>) -> Seq<Seq<char>> {
    v.map_values(|w: String| w@)
}

pub proof fn lemma_views_push(v: Seq<String>, x: String)
    ensures
        string_views(v.push(x)) == string_views(v).push(x@),
{
    assert(string_views(v.push(x)) =~= string_views(v).push(x@));
}

impl View for Record {
    type V = RecordView;

    open spec fn view(&self) -> RecordView {
        RecordView {
            completed: self.completed,
            priority: self.priority,
            creation: self.creation,
            deadline: self.deadline,
            description: string_views(self.description@),
        }
    }
}

impl RecordView {
    /// The fields hold values that the line format can write.
    pub open spec fn valid(self) -> bool {
        &&& self.priority matches Some(p) ==> p < 26
        &&& self.creation matches Some(d) ==> d.valid()
        &&& self.deadline.valid()
    }
}

/// The error of a line that is not a record: the line, or the word at fault.
#[derive(Debug)]
pub struct ParseError {
    pub text: String,
}

pub open spec fn done_mark() -> Seq<char> {
    seq!['x']
}

pub open spec fn is_priority_text(t: Seq<char>) -> bool {
    t.len() == 3 && t[0] == '(' && t[2] == ')' && 'A' <= t[1] <= 'Z'
}

pub open spec fn priority_of(t: Seq<char>) -> u8 {
    (t[1] as u32 - 65) as u8
}

pub open spec fn priority_text(p: u8) -> Seq<char> {
    seq!['(', ((p + 65) as u8) as char, ')']
}

pub open spec fn due_key() -> Seq<char> {
    seq!['d', 'u', 'e', ':']
}

/// A `due:` tag with a non-empty value.
pub open spec fn is_due_word(w: Seq<char>) -> bool {
    w.len() > 4 && w.take(4) == due_key()
}

/// The deadline that the value of a `due:` tag stands for, if any.
pub open spec fn due_value(v: Seq<char>) -> Option<Deadline> {
    if v == seq!['d', 'a', 'i', 'l', 'y'] {
        Some(Deadline::Daily)
    } else if v == seq!['a', 'l', 'w', 'a', 'y', 's'] {
        Some(Deadline::Always)
    } else if is_date_text(v) {
        Some(Deadline::Day(date_of(v)))
    } else if is_instant_text(v) {
        Some(Deadline::Instant(date_of(v.take(10)), num2(v, 11) as u8, num2(v, 14) as u8))
    } else {
        None
    }
}

/// The deadline of the first `n` words: `None` where a `due:` value is
/// malformed or a second `due:` tag stands among them.
pub open spec fn deadline_scan(desc: Seq<Seq<char>>, n: int) -> Option<Deadline>
    decreases n,
{
    if n <= 0 {
        Some(Deadline::Never)
    } else {
        match deadline_scan(desc, n - 1) {
            None => None,
            Some(d) => if is_due_word(desc[n - 1]) {
                if d is Never {
                    due_value(desc[n - 1].skip(4))
                } else {
                    None
                }
            } else {
                Some(d)
            },
        }
    }
}

pub open spec fn deadline_of(desc: Seq<Seq<char>>) -> Option<Deadline> {
    deadline_scan(desc, desc.len() as int)
}

/// A record read from its words: a leading `x`, then a priority `(P)`,
/// then a creation date, each optional and in that order; the rest is the
/// description.
pub open spec fn parse_words(ws: Seq<Seq<char>>) -> Option<RecordView> {
    if ws.len() == 0 {
        None
    } else {
        let completed = ws[0] == done_mark();
        let i0: int = if completed { 1 } else { 0 };
        let has_pri = i0 < ws.len() && is_priority_text(ws[i0]);
        let i1: int = if has_pri { i0 + 1 } else { i0 };
        let has_date = i1 < ws.len() && is_date_text(ws[i1]);
        let i2: int = if has_date { i1 + 1 } else { i1 };
        let desc = ws.skip(i2);
        match deadline_of(desc) {
            None => None,
            Some(deadline) => Some(
                RecordView {
                    completed,
                    priority: if has_pri { Some(priority_of(ws[i0])) } else { None },
                    creation: if has_date { Some(date_of(ws[i1])) } else { None },
                    deadline,
                    description: desc,
                },
            ),
        }
    }
}

/// The record that a line holds; `None` for a blank or malformed line.
pub open spec fn parse_line(line: Seq<char>) -> Option<RecordView> {
    parse_words(words(line))
}

/// The words of a record's line.
pub open spec fn render_words(r: RecordView) -> Seq<Seq<char>> {
    (if r.completed { seq![done_mark()] } else { Seq::empty() }) + (match r.priority {
        Some(p) => seq![priority_text(p)],
        None => Seq::empty(),
    }) + (match r.creation {
        Some(d) => seq![date_text(d)],
        None => Seq::empty(),
    }) + r.description
}

/// A record's line.
pub open spec fn render_line(r: RecordView) -> Seq<char> {
    join(render_words(r))
}

/// The text of a description: its words joined by spaces.
pub open spec fn description_text(r: RecordView) -> Seq<char> {
    join(r.description)
}

pub proof fn lemma_words_are_words(s: Seq<char>)
    ensures
        all_words(words(s)),
    decreases s.len(),
{
    if s.len() > 0 {
        if is_space(s[0]) {
            lemma_words_are_words(s.drop_first());
        } else {
            let k = word_len(s);
            lemma_word_len_bound(s);
            lemma_word_len_bound(s.drop_first());
            assert(k > 0);
            lemma_words_are_words(s.skip(k as int));
            let w = s.take(k as int);
            assert(is_word(w)) by {
                assert forall|i: int| 0 <= i < w.len() implies !is_space(#[trigger] w[i]) by {
                    assert(w[i] == s[i]);
                }
            }
            let ws = words(s);
            assert(ws == seq![w] + words(s.skip(k as int)));
            assert forall|i: int| 0 <= i < ws.len() implies is_word(#[trigger] ws[i]) by {
                if i > 0 {
                    assert(ws[i] == words(s.skip(k as int))[i - 1]);
                }
            }
        }
    }
}

proof fn lemma_parse_render_words(ws: Seq<Seq<char>>)
    requires
        parse_words(ws) is Some,
    ensures
        render_words(parse_words(ws)->0) == ws,
        parse_words(ws)->0.valid(),
{
    let r = parse_words(ws)->0;
    let i0: int = if r.completed { 1 } else { 0 };
    let has_pri = i0 < ws.len() && is_priority_text(ws[i0]);
    let i1: int = if has_pri { i0 + 1 } else { i0 };
    let has_date = i1 < ws.len() && is_date_text(ws[i1]);
    if has_pri {
        let t = ws[i0];
        let c = ((priority_of(t) + 65) as u8) as char;
        assert(c as u32 == t[1] as u32);
        assert(priority_text(priority_of(t)) =~= t);
    }
    if has_date {
        lemma_date_text(ws[i1]);
    }
    lemma_deadline_valid(r.description, r.description.len() as int);
    assert(render_words(r) =~= ws);
}

proof fn lemma_deadline_valid(desc: Seq<Seq<char>>, n: int)
    requires
        n <= desc.len(),
        deadline_scan(desc, n) is Some,
    ensures
        deadline_scan(desc, n)->0.valid(),
    decreases n,
{
    if n > 0 {
        lemma_deadline_valid(desc, n - 1);
        let v = desc[n - 1].skip(4);
        if is_due_word(desc[n - 1]) && is_date_text(v) {
            lemma_date_text(v);
        }
        if is_due_word(desc[n - 1]) && is_instant_text(v) {
            lemma_instant_text(v);
        }
    }
}

/// Writing a record that was read from a line, and reading the result,
/// gives the same record.
pub proof fn lemma_round_trip(line: Seq<char>)
    requires
        parse_line(line) is Some,
    ensures
        parse_line(render_line(parse_line(line)->0)) == parse_line(line),
{
    let ws = words(line);
    lemma_parse_render_words(ws);
    lemma_words_are_words(line);
    lemma_words_join(ws);
}

fn parse_priority(t: &str) -> (r: Option<u8>)
    ensures
        r is Some <==> is_priority_text(t@),
        r is Some ==> r->0 == priority_of(t@) && r->0 < 26,
{
    if t.unicode_len() != 3 {
        return None;
    }
    let c = t.get_char(1);
    if t.get_char(0) == '(' && t.get_char(2) == ')' && 'A' <= c && c <= 'Z' {
        Some((c as u32 - 65) as u8)
    } else {
        None
    }
}

fn is_due_word_exec(w: &str) -> (r: bool)
    ensures
        r == is_due_word(w@),
{
    if w.unicode_len() <= 4 {
        return false;
    }
    let head = w.substring_char(0, 4);
    proof {
        reveal_strlit("due:");
        assert(due_key() =~= "due:"@);
    }
    same_text(head, "due:")
}

fn parse_due_value(v: &str) -> (r: Option<Deadline>)
    ensures
        r == due_value(v@),
{
    proof {
        reveal_strlit("daily");
        reveal_strlit("always");
        assert(seq!['d', 'a', 'i', 'l', 'y'] =~= "daily"@);
        assert(seq!['a', 'l', 'w', 'a', 'y', 's'] =~= "always"@);
    }
    if same_text(v, "daily") {
        Some(Deadline::Daily)
    } else if same_text(v, "always") {
        Some(Deadline::Always)
    } else {
        match parse_date(v) {
            Some(d) => Some(Deadline::Day(d)),
            None => match parse_instant(v) {
                Some((d, h, m)) => Some(Deadline::Instant(d, h, m)),
                None => None,
            },
        }
    }
}

proof fn lemma_scan_stays_none(desc: Seq<Seq<char>>, j: int, n: int)
    requires
        0 <= j <= n,
        deadline_scan(desc, j) is None,
    ensures
        deadline_scan(desc, n) is None,
    decreases n - j,
{
    if j < n {
        lemma_scan_stays_none(desc, j + 1, n);
    }
}

/// Reads the deadline of a description from its `due:` tag.
pub fn scan_deadline(desc: &Vec<String>) -> (r: Result<Deadline, ParseError>)
    ensures
        match deadline_of(string_views(desc@)) {
            Some(d) => r == Ok::<Deadline, ParseError>(d),
            None => r is Err,
        },
{
    let ghost v = string_views(desc@);
    let mut acc = Deadline::Never;
    let mut j: usize = 0;
    while j < desc.len()
        invariant
            j <= desc.len(),
            v == string_views(desc@),
            deadline_scan(v, j as int) == Some(acc),
        decreases desc.len() - j,
    {
        let w = desc[j].as_str();
        assert(w@ == v[j as int]);
        if is_due_word_exec(w) {
            let found = match acc {
                Deadline::Never => parse_due_value(w.substring_char(4, w.unicode_len())),
                _ => None,
            };
            match found {
                Some(d) => {
                    acc = d;
                },
                None => {
                    proof {
                        lemma_scan_stays_none(v, j as int + 1, v.len() as int);
                    }
                    return Err(ParseError { text: desc[j].clone() });
                },
            }
        }
        j = j + 1;
    }
    Ok(acc)
}

/// Reads a record from a line. Blank lines and lines with a malformed
/// or repeated `due:` tag are refused.
pub fn parse_record(line: &str) -> (r: Result<Record, ParseError>)
    ensures
        match parse_line(line@) {
            Some(v) => r is Ok && r->Ok_0@ == v && v.valid(),
            None => r is Err,
        },
{
    proof {
        if parse_line(line@) is Some {
            lemma_parse_render_words(words(line@));
        }
    }
    let ws = split_words(line);
    let ghost wv = string_views(ws@);
    assert(wv == words(line@));
    if ws.len() == 0 {
        return Err(ParseError { text: line.to_owned() });
    }
    proof {
        reveal_strlit("x");
        assert(done_mark() =~= "x"@);
    }
    let completed = same_text(ws[0].as_str(), "x");
    let mut i: usize = if completed { 1 } else { 0 };
    let mut priority: Option<u8> = None;
    if i < ws.len() {
        priority = parse_priority(ws[i].as_str());
        if priority.is_some() {
            i = i + 1;
        }
    }
    let mut creation: Option<Date> = None;
    if i < ws.len() {
        creation = parse_date(ws[i].as_str());
        if creation.is_some() {
            i = i + 1;
        }
    }
    let start = i;
    let mut desc: Vec<String> = Vec::new();
    let mut j: usize = start;
    while j < ws.len()
        invariant
            start <= j <= ws.len(),
            wv == string_views(ws@),
            string_views(desc@) == wv.subrange(start as int, j as int),
        decreases ws.len() - j,
    {
        proof {
            lemma_views_push(desc@, ws[j as int]);
        }
        desc.push(ws[j].clone());
        assert(string_views(desc@) =~= wv.subrange(start as int, j + 1));
        j = j + 1;
    }
    assert(wv.subrange(start as int, ws.len() as int) =~= wv.skip(start as int));
    let deadline = scan_deadline(&desc)?;
    Ok(Record { completed, priority, creation, deadline, description: desc })
}

fn priority_string(p: u8) -> (s: String)
    requires
        p < 26,
    ensures
        s@ == priority_text(p),
{
    let mut s = String::new();
    crate::text::push_char(&mut s, '(');
    crate::text::push_char(&mut s, (p + 65) as char);
    crate::text::push_char(&mut s, ')');
    assert(s@ =~= priority_text(p));
    s
}

impl Record {
    /// The record's line.
    pub fn render(&self) -> (s: String)
        requires
            self@.valid(),
        ensures
            s@ == render_line(self@),
    {
        let mut ws: Vec<String> = Vec::new();
        let ghost head: Seq<Seq<char>> = Seq::empty();
        assert(string_views(ws@) =~= head);
        if self.completed {
            proof {
                reveal_strlit("x");
            }
            let x = "x".to_owned();
            assert(x@ =~= done_mark());
            proof {
                lemma_views_push(ws@, x);
                head = head.push(done_mark());
            }
            ws.push(x);
            assert(string_views(ws@) == head);
        }
        match self.priority {
            Some(p) => {
                let t = priority_string(p);
                proof {
                    lemma_views_push(ws@, t);
                    head = head.push(priority_text(p));
                }
                ws.push(t);
                assert(string_views(ws@) == head);
            },
            None => {},
        }
        match self.creation {
            Some(d) => {
                let t = render_date(d);
                proof {
                    lemma_views_push(ws@, t);
                    head = head.push(date_text(d));
                }
                ws.push(t);
                assert(string_views(ws@) == head);
            },
            None => {},
        }
        assert(string_views(ws@) =~= head);
        assert(head + self@.description =~= render_words(self@));
        let ghost pre = string_views(ws@);
        let n = ws.len();
        let mut j: usize = 0;
        while j < self.description.len()
            invariant
                n == pre.len(),
                j <= self.description.len(),
                string_views(ws@) == pre + string_views(self.description@).take(j as int),
            decreases self.description.len() - j,
        {
            proof {
                lemma_views_push(ws@, self.description@[j as int]);
            }
            ws.push(self.description[j].clone());
            assert(string_views(ws@) =~= pre + string_views(self.description@).take(j + 1));
            j = j + 1;
        }
        assert(string_views(self.description@).take(j as int) =~= string_views(
            self.description@,
        ));
        join_words(&ws)
    }

    /// A copy of the record, field for field.
    pub fn copy(&self) -> (r: Record)
        ensures
            r@ == self@,
    {
        let mut desc: Vec<String> = Vec::new();
        let mut j: usize = 0;
        while j < self.description.len()
            invariant
                j <= self.description.len(),
                string_views(desc@) == string_views(self.description@).take(j as int),
            decreases self.description.len() - j,
        {
            proof {
                lemma_views_push(desc@, self.description@[j as int]);
            }
            desc.push(self.description[j].clone());
            assert(string_views(desc@) =~= string_views(self.description@).take(j + 1));
            j = j + 1;
        }
        assert(string_views(self.description@).take(j as int) =~= string_views(
            self.description@,
        ));
        Record {
            completed: self.completed,
            priority: self.priority,
            creation: self.creation,
            deadline: self.deadline,
            description: desc,
        }
    }

    /// The description's text: its words joined by spaces.
    pub fn description_text(&self) -> (s: String)
        ensures
            s@ == description_text(self@),
    {
        join_words(&self.description)
    }
}

} // verus!
