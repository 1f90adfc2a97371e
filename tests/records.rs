use todo_cli::date::{parse_date, render_date, Date};
use todo_cli::record::{parse_record, Deadline, Record};
use todo_cli::tags::is_tag_exec;
use todo_cli::text::{join_words, split_words};

fn rec(line: &str) -> Record {
    parse_record(line).expect("line should parse")
}

#[test]
fn parse_completed_without_tags() {
    let r = rec("x Buy milk");
    assert!(r.completed);
    assert_eq!(r.priority, None);
    assert_eq!(r.creation, None);
    assert_eq!(r.deadline, Deadline::Never);
    assert_eq!(r.description, vec!["Buy".to_string(), "milk".to_string()]);
}

#[test]
fn parse_priority_and_due_day() {
    let r = rec("(A) Call mom due:2024-01-01");
    assert!(!r.completed);
    assert_eq!(r.priority, Some(0));
    assert_eq!(r.deadline, Deadline::Day(Date { year: 2024, month: 1, day: 1 }));
    assert_eq!(r.render(), "(A) Call mom due:2024-01-01");
}

#[test]
fn parse_all_prefixes() {
    let r = rec("x (C) 2023-12-31 pay rent due:daily");
    assert!(r.completed);
    assert_eq!(r.priority, Some(2));
    assert_eq!(r.creation, Some(Date { year: 2023, month: 12, day: 31 }));
    assert_eq!(r.deadline, Deadline::Daily);
    assert_eq!(r.description_text(), "pay rent due:daily");
}

#[test]
fn parse_always_and_instant() {
    assert_eq!(rec("water plants due:always").deadline, Deadline::Always);
    assert_eq!(
        rec("standup due:2024-03-05T09:30").deadline,
        Deadline::Instant(Date { year: 2024, month: 3, day: 5 }, 9, 30)
    );
}

#[test]
fn parse_rejects_blank_and_bad_due() {
    assert!(parse_record("   ").is_err());
    assert!(parse_record("").is_err());
    let e = parse_record("call due:tomorrow").unwrap_err();
    assert_eq!(e.text, "due:tomorrow");
    assert!(parse_record("a due:daily due:always").is_err());
    assert!(parse_record("a due:2024-13-01").is_err());
}

#[test]
fn round_trip_is_stable() {
    for line in [
        "x Buy milk",
        "(A) Call mom due:2024-01-01",
        "x (B) 2024-02-03 write  report   id:7 project:work",
        "2024-01-01 x not done",
        "(a) lower case word",
        "x",
    ] {
        let r = rec(line);
        let text = r.render();
        let again = rec(&text);
        assert_eq!(again.render(), text);
        assert_eq!(again.completed, r.completed);
        assert_eq!(again.priority, r.priority);
        assert_eq!(again.creation, r.creation);
        assert_eq!(again.deadline, r.deadline);
        assert_eq!(again.description, r.description);
    }
}

#[test]
fn render_squeezes_spaces() {
    assert_eq!(rec("  (B)   a\tb  ").render(), "(B) a b");
}

#[test]
fn words_split_and_join() {
    let ws = split_words(" a  bc\td ");
    assert_eq!(ws, vec!["a".to_string(), "bc".to_string(), "d".to_string()]);
    assert_eq!(join_words(&ws), "a bc d");
}

#[test]
fn dates_read_and_write() {
    let d = parse_date("2024-07-09").unwrap();
    assert_eq!(d, Date { year: 2024, month: 7, day: 9 });
    assert_eq!(render_date(d), "2024-07-09");
    assert_eq!(render_date(Date { year: 7, month: 1, day: 2 }), "0007-01-02");
    assert!(parse_date("2024-7-09").is_none());
    assert!(parse_date("2024-00-09").is_none());
}

#[test]
fn tags_and_titles() {
    let r = rec("(A) Call mom id:42 project:family due:2024-01-01");
    assert_eq!(r.title(), "Call mom");
    assert_eq!(r.meta("id"), Some("42".to_string()));
    assert_eq!(r.meta("due"), Some("2024-01-01".to_string()));
    assert_eq!(r.meta("path"), None);
    assert!(r.has_tag("project", "family"));
    assert!(!r.has_tag("project", "work"));
    assert!(is_tag_exec("a:b"));
    assert!(!is_tag_exec(":b"));
    assert!(!is_tag_exec("a:"));
    assert!(!is_tag_exec("plain"));
}

#[test]
fn first_meta_value_wins() {
    let r = rec("task id:1 id:2");
    assert_eq!(r.meta("id"), Some("1".to_string()));
}
