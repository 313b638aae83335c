use mailbox::dispatch::{summary, Dispatch, Failure};
use mailbox::html::generate_html;
use mailbox::model::{Header, Table, Tasks};

fn header(name: &str) -> Header {
    Header { name: name.to_string(), width: 100, check: true }
}

fn person(email: &str, name: &str, seq: i64, selected: bool) -> Tasks {
    Tasks {
        email: email.to_string(),
        name: name.to_string(),
        seq,
        info: vec![format!("note {}", seq)],
        status: selected,
    }
}

fn table(rows: Vec<Tasks>) -> Table {
    Table {
        headers: vec![header("全选"), header("邮箱地址"), header("序号"), header("姓名"), header("备注")],
        list: rows,
    }
}

/// Runs one pass; `fails` says, by recipient, which sends the transport
/// refuses. Returns the residual rows, the failures and every recipient
/// the transport was asked to reach.
fn run(t: Table, fails: &dyn Fn(&str) -> bool) -> (Vec<Tasks>, Vec<Failure>, Vec<String>) {
    let mut d = Dispatch::new(t, "Monthly report".to_string(), "bye".to_string(), "jdoe");
    let mut sent = vec![];
    while let Some(m) = d.next_mail() {
        sent.push(m.to.clone());
        if fails(&m.to) {
            d.record(Err(format!("refused {}", m.to)));
        } else {
            d.record(Ok(()));
        }
    }
    let (rows, failures) = d.finish();
    (rows, failures, sent)
}

#[test]
fn message_fields() {
    let t = table(vec![person("a@example.com", "Alice", 1, true)]);
    let expected_body = generate_html(&t.list[0], &t.headers, "bye");
    let mut d = Dispatch::new(t, "Monthly report".to_string(), "bye".to_string(), "jdoe");
    let m = d.next_mail().unwrap();
    assert_eq!(m.subject, "[Alice]Monthly report");
    assert_eq!(m.from, "jdoe@wondersgroup.com");
    assert_eq!(m.to, "a@example.com");
    assert_eq!(m.body, expected_body);
    d.record(Ok(()));
    assert!(d.next_mail().is_none());
}

#[test]
fn three_rows_second_fails_then_retry() {
    let t = table(vec![
        person("a@example.com", "A", 1, true),
        person("b@example.com", "B", 2, true),
        person("c@example.com", "C", 3, true),
    ]);
    let (residual, failures, sent) = run(t, &|to| to == "b@example.com");
    assert_eq!(sent, vec!["a@example.com", "b@example.com", "c@example.com"]);
    assert_eq!(residual, vec![person("b@example.com", "B", 2, true)]);
    assert_eq!(failures.len(), 1);
    assert_eq!(failures[0].email, "b@example.com");
    assert_eq!(failures[0].error, "refused b@example.com");
    assert_eq!(summary(residual.len()), "1 row remains undelivered");
    let (again, failures, sent) = run(table(residual), &|_| false);
    assert!(again.is_empty());
    assert!(failures.is_empty());
    assert_eq!(sent, vec!["b@example.com"]);
    assert_eq!(summary(again.len()), "all delivered");
}

#[test]
fn residual_is_unselected_and_failed_in_order() {
    let rows = vec![
        person("a@example.com", "A", 1, true),
        person("b@example.com", "B", 2, false),
        person("c@example.com", "C", 3, true),
        person("d@example.com", "D", 4, true),
        person("e@example.com", "E", 5, false),
    ];
    let (residual, failures, sent) =
        run(table(rows.clone()), &|to| to == "a@example.com" || to == "d@example.com");
    assert_eq!(sent, vec!["a@example.com", "c@example.com", "d@example.com"]);
    assert_eq!(residual, vec![rows[0].clone(), rows[1].clone(), rows[3].clone(), rows[4].clone()]);
    assert_eq!(failures.len(), 2);
}

#[test]
fn select_all_then_all_delivered() {
    let mut t = table(vec![
        person("a@example.com", "A", 1, false),
        person("b@example.com", "B", 2, true),
    ]);
    t.select_all(true);
    assert!(t.headers.iter().all(|h| h.check));
    let (residual, _, sent) = run(t, &|_| false);
    assert!(residual.is_empty());
    assert_eq!(sent.len(), 2);
}

#[test]
fn deselect_all_sends_nothing() {
    let mut t = table(vec![
        person("a@example.com", "A", 1, true),
        person("b@example.com", "B", 2, true),
    ]);
    t.select_all(false);
    assert!(t.headers.iter().all(|h| !h.check));
    let expected = t.list.clone();
    let (residual, failures, sent) = run(t, &|_| true);
    assert!(sent.is_empty());
    assert!(failures.is_empty());
    assert_eq!(residual, expected);
}

#[test]
fn empty_table_sends_nothing() {
    let (residual, failures, sent) = run(table(vec![]), &|_| true);
    assert!(residual.is_empty());
    assert!(failures.is_empty());
    assert!(sent.is_empty());
}

#[test]
fn single_row_toggle() {
    let mut t = table(vec![
        person("a@example.com", "A", 1, true),
        person("b@example.com", "B", 2, true),
    ]);
    t.set_selected(0, false);
    assert!(!t.list[0].status);
    assert!(t.list[1].status);
    let (residual, _, sent) = run(t, &|_| false);
    assert_eq!(sent, vec!["b@example.com"]);
    assert_eq!(residual, vec![person("a@example.com", "A", 1, false)]);
}

#[test]
fn summary_texts() {
    assert_eq!(summary(0), "all delivered");
    assert_eq!(summary(1), "1 row remains undelivered");
    assert_eq!(summary(12), "12 rows remain undelivered");
}
