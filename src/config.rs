//! The settings file (records titled `source` and `archive` that carry a
//! `path:` tag) and the choice of the task and archive files.
use vstd::prelude::*;
use vstd::string::*;
use crate::record::{Record, RecordView, parse_line, parse_record};
use crate::table::{Table, column_view, first_where, titled, record_views};
use crate::tags::meta_value;
use crate::store::line_views;

verus! {

/// One setting: not given, given without a `path:` tag, or a path.
#[derive(Debug)]
pub enum Setting {
    Unset,
    Invalid,
    Path(String),
}

#[derive(Debug)]
pub struct Config {
    pub source: Setting,
    pub archive: Setting,
}

/// The records of the settings file's lines; lines that are not records
/// are passed over.
pub open spec fn config_records(ls: Seq<Seq<char>>) -> Seq<RecordView>
    decreases ls.len(),
{
    if ls.len() == 0 {
        Seq::empty()
    } else {
        match parse_line(ls.last()) {
            Some(r) => config_records(ls.drop_last()).push(r),
            None => config_records(ls.drop_last()),
        }
    }
}

pub open spec fn path_key() -> Seq<char> {
    seq!['p', 'a', 't', 'h']
}

/// The setting that the first record titled `name` gives.
pub open spec fn setting_is(s: Setting, recs: Seq<RecordView>, name: Seq<char>) -> bool {
    match first_where(recs, titled(name)) {
        None => s is Unset,
        Some(i) => match meta_value(recs[i].description, path_key()) {
            Some(p) => s matches Setting::Path(q) && q@ == p,
            None => s is Invalid,
        },
    }
}

pub open spec fn config_column() -> Seq<char> {
    seq!['C', 'o', 'n', 'f', 'i', 'g']
}

fn setting(t: &Table, name: &str) -> (s: Setting)
    requires
        t.wf(),
        column_view(t@, config_column()) is Some,
    ensures
        setting_is(s, column_view(t@, config_column())->0, name@),
{
    proof {
        reveal_strlit("Config");
        reveal_strlit("path");
        assert("Config"@ =~= config_column());
        assert("path"@ =~= path_key());
    }
    match t.find_by_title("Config", name) {
        None => Setting::Unset,
        Some(i) => {
            let recs = t.column("Config").unwrap();
            let n = recs.len();
            proof {
                let rv = record_views(recs@);
                let k = choose|k: int| crate::table::is_first(rv, titled(name@), k);
                assert(crate::table::is_first(rv, titled(name@), k));
                assert(k == i as int);
            }
            assert(record_views(recs@)[i as int] == recs@[i as int]@);
            match recs[i].meta("path") {
                Some(p) => Setting::Path(p),
                None => Setting::Invalid,
            }
        },
    }
}

/// Reads the settings from the lines of the settings file.
pub fn config_from_lines(lines: &Vec<String>) -> (c: Config)
    ensures
        setting_is(c.source, config_records(line_views(lines@)), seq!['s', 'o', 'u', 'r', 'c', 'e']),
        setting_is(c.archive, config_records(line_views(lines@)), seq!['a', 'r', 'c', 'h', 'i', 'v', 'e']),
{
    proof {
        reveal_strlit("Config");
        assert("Config"@ =~= config_column());
    }
    let ghost ls = line_views(lines@);
    let mut t = Table::new();
    let _ = t.add_column("Config");
    assert(column_view(t@, config_column()) == Some(Seq::<RecordView>::empty())) by {
        assert(crate::table::col_index(t@, config_column(), 0));
    }
    let mut i: usize = 0;
    assert(ls.take(0) =~= Seq::<Seq<char>>::empty());
    while i < lines.len()
        invariant
            i <= lines.len(),
            ls == line_views(lines@),
            t.wf(),
            column_view(t@, config_column()) == Some(config_records(ls.take(i as int))),
        decreases lines.len() - i,
    {
        proof {
            reveal_strlit("Config");
            assert("Config"@ =~= config_column());
        }
        assert(ls.take(i + 1).drop_last() =~= ls.take(i as int));
        assert(ls.take(i + 1).last() == lines@[i as int]@);
        match parse_record(lines[i].as_str()) {
            Ok(r) => {
                let _ = t.add_record(r, "Config");
            },
            Err(_) => {},
        }
        i = i + 1;
    }
    assert(ls.take(i as int) =~= ls);
    proof {
        reveal_strlit("source");
        reveal_strlit("archive");
        assert("source"@ =~= seq!['s', 'o', 'u', 'r', 'c', 'e']);
        assert("archive"@ =~= seq!['a', 'r', 'c', 'h', 'i', 'v', 'e']);
    }
    Config { source: setting(&t, "source"), archive: setting(&t, "archive") }
}

pub open spec fn opt_view(o: Option<String>) -> Option<Seq<char>> {
    match o {
        Some(s) => Some(s@),
        None => None,
    }
}

/// The task file: the one named on the command line, else `todo.txt` in
/// the working directory where it exists, else the configured source,
/// else `todo.txt` in the home directory (none where there is no home).
pub open spec fn source_choice(
    file_arg: Option<Seq<char>>,
    local_exists: bool,
    configured: Option<Seq<char>>,
    home: Option<Seq<char>>,
    sep: char,
) -> Option<Seq<char>> {
    match file_arg {
        Some(f) => Some(f),
        None => if local_exists {
            Some("todo.txt"@)
        } else {
            match configured {
                Some(p) => Some(p),
                None => match home {
                    Some(h) => Some(h + seq![sep] + "todo.txt"@),
                    None => None,
                },
            }
        },
    }
}

/// The archive file: `todo.txt.archive` in the working directory where it
/// or `todo.txt` exists there, else the configured archive, else the
/// configured source with `.archive` added, else `todo.txt.archive` in the
/// home directory.
pub open spec fn archive_choice(
    local_exists: bool,
    configured: Option<Seq<char>>,
    source: Option<Seq<char>>,
    home: Option<Seq<char>>,
    sep: char,
) -> Option<Seq<char>> {
    if local_exists {
        Some("todo.txt.archive"@)
    } else {
        match configured {
            Some(p) => Some(p),
            None => match source {
                Some(s) => Some(s + ".archive"@),
                None => match home {
                    Some(h) => Some(h + seq![sep] + "todo.txt.archive"@),
                    None => None,
                },
            },
        }
    }
}

/// A path with a leading `~/` taken to the home directory; none where it
/// has one and there is no home.
pub open spec fn expanded(path: Seq<char>, home: Option<Seq<char>>, sep: char) -> Option<
    Seq<char>,
> {
    if path.len() >= 2 && path[0] == '~' && path[1] == '/' {
        match home {
            Some(h) => Some(h + seq![sep] + path.skip(2)),
            None => None,
        }
    } else {
        Some(path)
    }
}

fn in_home(home: &String, sep: char, name: &str) -> (s: String)
    ensures
        s@ == home@ + seq![sep] + name@,
{
    let mut s = home.clone();
    crate::text::push_char(&mut s, sep);
    s.append(name);
    s
}

/// Picks the task file.
pub fn choose_source(
    file_arg: Option<String>,
    local_exists: bool,
    configured: Option<String>,
    home: Option<String>,
    sep: char,
) -> (r: Option<String>)
    ensures
        opt_view(r) == source_choice(
            opt_view(file_arg),
            local_exists,
            opt_view(configured),
            opt_view(home),
            sep,
        ),
{
    match file_arg {
        Some(f) => Some(f),
        None => if local_exists {
            Some("todo.txt".to_owned())
        } else {
            match configured {
                Some(p) => Some(p),
                None => match home {
                    Some(h) => Some(in_home(&h, sep, "todo.txt")),
                    None => None,
                },
            }
        },
    }
}

/// Picks the archive file.
pub fn choose_archive(
    local_exists: bool,
    configured: Option<String>,
    source: Option<String>,
    home: Option<String>,
    sep: char,
) -> (r: Option<String>)
    ensures
        opt_view(r) == archive_choice(
            local_exists,
            opt_view(configured),
            opt_view(source),
            opt_view(home),
            sep,
        ),
{
    if local_exists {
        Some("todo.txt.archive".to_owned())
    } else {
        match configured {
            Some(p) => Some(p),
            None => match source {
                Some(s) => {
                    let mut s = s;
                    s.append(".archive");
                    Some(s)
                },
                None => match home {
                    Some(h) => Some(in_home(&h, sep, "todo.txt.archive")),
                    None => None,
                },
            },
        }
    }
}

/// Takes a leading `~/` of a path to the home directory.
pub fn expand_home(path: String, home: Option<String>, sep: char) -> (r: Option<String>)
    ensures
        opt_view(r) == expanded(path@, opt_view(home), sep),
{
    let n = path.as_str().unicode_len();
    if n >= 2 && path.as_str().get_char(0) == '~' && path.as_str().get_char(1) == '/' {
        match home {
            Some(h) => Some(in_home(&h, sep, path.as_str().substring_char(2, n))),
            None => None,
        }
    } else {
        Some(path)
    }
}

} // verus!
