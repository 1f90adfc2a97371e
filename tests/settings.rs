use todo_cli::config::{choose_archive, choose_source, config_from_lines, expand_home, Setting};
use todo_cli::record::parse_record;
use todo_cli::report::CleanFail;
use todo_cli::table::TableError;

fn lines(v: &[&str]) -> Vec<String> {
    v.iter().map(|s| s.to_string()).collect()
}

#[test]
fn config_reads_paths() {
    let c = config_from_lines(&lines(&["source path:~/todo.txt", "archive path:/tmp/a.txt"]));
    assert!(matches!(c.source, Setting::Path(ref p) if p == "~/todo.txt"));
    assert!(matches!(c.archive, Setting::Path(ref p) if p == "/tmp/a.txt"));
}

#[test]
fn config_missing_and_invalid_entries() {
    let c = config_from_lines(&lines(&["source example:1", "", "bad due:x"]));
    assert!(matches!(c.source, Setting::Invalid));
    assert!(matches!(c.archive, Setting::Unset));
}

#[test]
fn source_file_choice() {
    let s = |f: Option<&str>, local: bool, cfg: Option<&str>, home: Option<&str>| {
        choose_source(f.map(String::from), local, cfg.map(String::from), home.map(String::from), '/')
    };
    assert_eq!(s(Some("a.txt"), true, Some("c"), Some("/h")), Some("a.txt".to_string()));
    assert_eq!(s(None, true, Some("c"), Some("/h")), Some("todo.txt".to_string()));
    assert_eq!(s(None, false, Some("c"), Some("/h")), Some("c".to_string()));
    assert_eq!(s(None, false, None, Some("/h")), Some("/h/todo.txt".to_string()));
    assert_eq!(s(None, false, None, None), None);
}

#[test]
fn archive_file_choice() {
    let a = |local: bool, cfg: Option<&str>, src: Option<&str>, home: Option<&str>| {
        choose_archive(local, cfg.map(String::from), src.map(String::from), home.map(String::from), '/')
    };
    assert_eq!(a(true, Some("c"), Some("s"), Some("/h")), Some("todo.txt.archive".to_string()));
    assert_eq!(a(false, Some("c"), Some("s"), Some("/h")), Some("c".to_string()));
    assert_eq!(a(false, None, Some("s.txt"), Some("/h")), Some("s.txt.archive".to_string()));
    assert_eq!(a(false, None, None, Some("/h")), Some("/h/todo.txt.archive".to_string()));
}

#[test]
fn home_expansion() {
    assert_eq!(expand_home("~/t.txt".to_string(), Some("/home/u".to_string()), '/'), Some("/home/u/t.txt".to_string()));
    assert_eq!(expand_home("/abs/t.txt".to_string(), None, '/'), Some("/abs/t.txt".to_string()));
    assert_eq!(expand_home("~/t.txt".to_string(), None, '/'), None);
}

#[test]
fn clean_fail_messages() {
    assert_eq!(Some(3).fail("none"), Ok(3));
    assert_eq!(None::<u8>.fail("failed to find todo"), Err("failed to find todo".to_string()));
    let e = parse_record("a due:soon").map(|_| ()).fail("invalid todo");
    assert_eq!(e, Err("invalid todo: invalid record: due:soon".to_string()));
    let t: Result<u8, TableError> = Err(TableError::RecordNotFound("milk".to_string()));
    assert_eq!(t.fail("failed"), Err("failed: no record titled or with id milk".to_string()));
}
