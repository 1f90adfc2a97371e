use std::cmp::Ordering;
use todo_cli::date::Date;
use todo_cli::filter::{apply_filters, list_records, parse_priority_letter, Filter};
use todo_cli::order::{compare_records, lex_compare, sort_records};
use todo_cli::record::{parse_record, Record};
use todo_cli::store::{archive_split, parse_lines, render_file};
use todo_cli::table::{Table, TableError};

fn rec(line: &str) -> Record {
    parse_record(line).expect("line should parse")
}

fn today() -> Date {
    Date { year: 2024, month: 6, day: 1 }
}

fn no_filter() -> Filter {
    Filter { project: None, context: None, min_priority: None, max_priority: None }
}

fn rendered(v: &[Record]) -> Vec<String> {
    v.iter().map(|r| r.render()).collect()
}

fn two_records() -> Vec<Record> {
    let lines = vec!["x Buy milk".to_string(), "(A) Call mom due:2024-01-01".to_string()];
    parse_lines(&lines).unwrap()
}

#[test]
fn listing_puts_open_due_record_first() {
    let out = list_records(&two_records(), &no_filter(), today());
    assert_eq!(rendered(&out), vec!["(A) Call mom due:2024-01-01", "x Buy milk"]);
}

#[test]
fn archive_moves_completed_records() {
    let (keep, done) = archive_split(two_records());
    assert_eq!(render_file(&keep), "(A) Call mom due:2024-01-01\n");
    assert_eq!(render_file(&done), "x Buy milk\n");
    let existing = "x Old task\n".to_string();
    let archive = existing.clone() + &render_file(&done);
    assert_eq!(archive, "x Old task\nx Buy milk\n");
}

#[test]
fn added_record_is_listed_once() {
    let mut t = Table::new();
    t.add_column("Todos").unwrap();
    for r in two_records() {
        t.add_record(r, "Todos").unwrap();
    }
    t.add_record(rec("Write letter +home"), "Todos").unwrap();
    let out = list_records(t.column("Todos").unwrap(), &no_filter(), today());
    let texts = rendered(&out);
    assert_eq!(texts.iter().filter(|s| s.as_str() == "Write letter +home").count(), 1);
    assert_eq!(out.len(), 3);
    let added = out.iter().find(|r| r.title() == "Write letter +home").unwrap();
    assert_eq!(added.description_text(), "Write letter +home");
}

#[test]
fn completion_falls_back_to_id() {
    let mut t = Table::new();
    t.add_column("Todos").unwrap();
    t.add_record(rec("Call mom id:7"), "Todos").unwrap();
    t.add_record(rec("Pay rent id:8"), "Todos").unwrap();
    assert_eq!(t.find_by_title("Todos", "8"), None);
    assert_eq!(t.complete_matching("Todos", "8").unwrap(), 1);
    let col = t.column("Todos").unwrap();
    assert!(!col[0].completed);
    assert!(col[1].completed);
    assert_eq!(t.complete_matching("Todos", "Call mom").unwrap(), 0);
    assert!(t.column("Todos").unwrap()[0].completed);
}

#[test]
fn completion_reports_missing_record() {
    let mut t = Table::new();
    t.add_column("Todos").unwrap();
    t.add_record(rec("Call mom"), "Todos").unwrap();
    assert!(matches!(t.complete_matching("Todos", "nothing"), Err(TableError::RecordNotFound(_))));
    assert!(matches!(t.complete_matching("Other", "Call mom"), Err(TableError::UnknownColumn(_))));
    assert!(!t.column("Todos").unwrap()[0].completed);
}

#[test]
fn table_column_errors() {
    let mut t = Table::new();
    assert!(t.add_column("A").is_ok());
    assert!(matches!(t.add_column("A"), Err(TableError::DuplicateColumn(_))));
    assert!(matches!(t.add_record(rec("a"), "B"), Err(TableError::UnknownColumn(_))));
    assert!(t.column("B").is_none());
    assert_eq!(t.column("A").unwrap().len(), 0);
}

#[test]
fn find_by_title_and_meta_take_first() {
    let mut t = Table::new();
    t.add_column("Todos").unwrap();
    t.add_record(rec("same id:1"), "Todos").unwrap();
    t.add_record(rec("same id:2"), "Todos").unwrap();
    assert_eq!(t.find_by_title("Todos", "same"), Some(0));
    assert_eq!(t.find_by_meta("Todos", "id", "2"), Some(1));
    assert_eq!(t.find_by_meta("Todos", "id", "3"), None);
}

#[test]
fn order_tie_breaks() {
    let d = today();
    // due before not due
    assert_eq!(compare_records(&rec("b due:2024-01-01"), &rec("a due:2025-01-01"), d), Ordering::Less);
    // priority: A before B before none
    assert_eq!(compare_records(&rec("(A) z"), &rec("(B) a"), d), Ordering::Less);
    assert_eq!(compare_records(&rec("(Z) z"), &rec("a"), d), Ordering::Less);
    // fixed days by day
    assert_eq!(
        compare_records(&rec("z due:2025-01-01"), &rec("a due:2025-02-01"), d),
        Ordering::Less
    );
    // creation day where both carry one
    assert_eq!(compare_records(&rec("2024-01-01 z"), &rec("2024-01-02 a"), d), Ordering::Less);
    // description text last
    assert_eq!(compare_records(&rec("2024-01-01 a"), &rec("b"), d), Ordering::Less);
    assert_eq!(compare_records(&rec("a"), &rec("a"), d), Ordering::Equal);
    assert_eq!(lex_compare("ab", "abc"), Ordering::Less);
    assert_eq!(lex_compare("b", "abc"), Ordering::Greater);
}

#[test]
fn order_is_transitive_on_examples() {
    let d = today();
    let a = rec("(A) 2024-01-01 alpha");
    let b = rec("(A) 2024-01-02 alpha");
    let c = rec("(B) 2023-01-01 alpha");
    assert_ne!(compare_records(&a, &b, d), Ordering::Greater);
    assert_ne!(compare_records(&b, &c, d), Ordering::Greater);
    assert_ne!(compare_records(&a, &c, d), Ordering::Greater);
}

#[test]
fn sort_is_stable_and_ordered() {
    let v = vec![rec("c"), rec("x a"), rec("(B) b"), rec("c"), rec("(A) d")];
    let out = sort_records(v, today());
    assert_eq!(rendered(&out), vec!["(A) d", "(B) b", "c", "c", "x a"]);
}

#[test]
fn filters_keep_records_unchanged() {
    let v = vec![
        rec("(A) one project:work"),
        rec("(C) two project:home context:phone"),
        rec("three project:work"),
    ];
    let f = Filter { project: Some("work".to_string()), context: None, min_priority: None, max_priority: None };
    let out = apply_filters(v, &f);
    assert_eq!(rendered(&out), vec!["(A) one project:work", "three project:work"]);
    assert_eq!(out[0].priority, Some(0));
    assert!(!out[1].completed);
}

#[test]
fn context_filter() {
    let v = vec![rec("one context:phone"), rec("two")];
    let f = Filter { project: None, context: Some("phone".to_string()), min_priority: None, max_priority: None };
    assert_eq!(rendered(&apply_filters(v, &f)), vec!["one context:phone"]);
}

#[test]
fn priority_bounds_treat_none_as_weakest() {
    let v = || vec![rec("(A) a"), rec("(B) b"), rec("(C) c"), rec("none")];
    let min_b = Filter { project: None, context: None, min_priority: Some(1), max_priority: None };
    assert_eq!(rendered(&apply_filters(v(), &min_b)), vec!["(A) a", "(B) b"]);
    let max_b = Filter { project: None, context: None, min_priority: None, max_priority: Some(1) };
    assert_eq!(rendered(&apply_filters(v(), &max_b)), vec!["(B) b", "(C) c", "none"]);
    assert_eq!(parse_priority_letter("b"), Some(1));
    assert_eq!(parse_priority_letter("B"), Some(1));
    assert_eq!(parse_priority_letter("BB"), None);
    assert_eq!(parse_priority_letter("1"), None);
}

#[test]
fn archive_partition_keeps_every_record() {
    let v = vec![rec("a"), rec("x b"), rec("c"), rec("x d")];
    let (keep, done) = archive_split(v);
    assert_eq!(rendered(&keep), vec!["a", "c"]);
    assert_eq!(rendered(&done), vec!["x b", "x d"]);
}

#[test]
fn file_lines_skip_blanks_and_fail_on_bad_lines() {
    let lines = vec!["a".to_string(), "".to_string(), "  ".to_string(), "x b".to_string()];
    assert_eq!(rendered(&parse_lines(&lines).unwrap()), vec!["a", "x b"]);
    let bad = vec!["a".to_string(), "b due:never".to_string()];
    assert!(parse_lines(&bad).is_err());
    assert_eq!(render_file(&Vec::new()), "");
}
