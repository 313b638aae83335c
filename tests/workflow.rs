use mailbox::dispatch::summary;
use mailbox::model::{Header, Table, Tasks};
use mailbox::workflow::{AuthState, Command, MailData, Mailbox, Message, Session};

fn logged_in() -> Mailbox {
    let mut app = Mailbox::new();
    app.update(Message::Username("jdoe".to_string()));
    app.update(Message::Password("secret".to_string()));
    let cmd = app.update(Message::LoginChecked(
        true,
        MailData { title: "Report".to_string(), remark: "Thanks".to_string() },
    ));
    assert!(matches!(cmd, Command::StoreAuth(ref a) if a.username == "jdoe" && a.save));
    app
}

fn session(app: &Mailbox) -> &Session {
    match app {
        Mailbox::Main(s) => s,
        Mailbox::Config(_) => panic!("still on the credentials step"),
    }
}

fn sample_table(n: usize) -> Table {
    let headers = ["全选", "邮箱地址", "序号", "姓名"]
        .iter()
        .map(|n| Header { name: n.to_string(), width: 100, check: true })
        .collect();
    let list = (0..n)
        .map(|i| Tasks {
            email: format!("r{}@example.com", i),
            name: format!("R{}", i),
            seq: i as i64,
            info: vec![],
            status: true,
        })
        .collect();
    Table { headers, list }
}

#[test]
fn login_needs_both_fields() {
    let mut app = Mailbox::new();
    assert!(matches!(app.update(Message::Login), Command::Nothing));
    app.update(Message::Username("jdoe".to_string()));
    assert!(matches!(app.update(Message::Login), Command::Nothing));
    app.update(Message::Password("pw".to_string()));
    match app.update(Message::Login) {
        Command::Probe(u, p) => {
            assert_eq!(u, "jdoe");
            assert_eq!(p, "pw");
        }
        _ => panic!("expected a probe"),
    }
}

#[test]
fn refused_login_stays_on_credentials() {
    let mut app = Mailbox::new();
    app.update(Message::Loaded(AuthState {
        username: "u".to_string(),
        password: "p".to_string(),
        save: false,
    }));
    let cmd = app.update(Message::LoginChecked(false, MailData { title: String::new(), remark: String::new() }));
    assert!(matches!(cmd, Command::LoginRefused));
    assert!(matches!(app, Mailbox::Config(ref a) if a.username == "u" && !a.save));
}

#[test]
fn accepted_login_without_save_forgets() {
    let mut app = Mailbox::new();
    app.update(Message::Username("jdoe".to_string()));
    app.update(Message::Password("pw".to_string()));
    app.update(Message::Save(false));
    let cmd = app.update(Message::LoginChecked(true, MailData { title: "T".to_string(), remark: "R".to_string() }));
    assert!(matches!(cmd, Command::ForgetAuth));
    let s = session(&app);
    assert_eq!(s.title, "T");
    assert_eq!(s.remark, "R");
    assert!(s.table.list.is_empty());
}

#[test]
fn title_and_remark_are_trimmed() {
    let mut app = logged_in();
    app.update(Message::Title("  Hello \n".to_string()));
    app.update(Message::Remark("\tBye ".to_string()));
    assert_eq!(session(&app).title, "Hello");
    assert_eq!(session(&app).remark, "Bye");
}

#[test]
fn import_replaces_table_and_rejects_misaligned() {
    let mut app = logged_in();
    assert!(matches!(app.update(Message::Import), Command::PickWorkbook));
    app.update(Message::Imported(sample_table(3)));
    assert_eq!(session(&app).table.list.len(), 3);
    let mut bad = sample_table(2);
    bad.list[1].info.push("stray".to_string());
    app.update(Message::Imported(bad));
    assert_eq!(session(&app).table.list.len(), 3);
}

#[test]
fn send_round_trip() {
    let mut app = logged_in();
    assert!(matches!(app.update(Message::BeginSend), Command::Nothing));
    app.update(Message::Imported(sample_table(3)));
    app.update(Message::Enable(2, false));
    assert!(matches!(app.update(Message::BeginSend), Command::ConfirmSend));
    assert!(matches!(app.update(Message::SendConfirmed(false)), Command::Nothing));
    let d = match app.update(Message::SendConfirmed(true)) {
        Command::Send(d) => d,
        _ => panic!("expected a pass"),
    };
    assert_eq!(session(&app).send_message, "sending...");
    let mut d = d;
    let mut sent = vec![];
    while let Some(m) = d.next_mail() {
        assert_eq!(m.from, "jdoe@wondersgroup.com");
        assert!(m.subject.ends_with("]Report"));
        sent.push(m.to.clone());
        d.record(if m.to == "r0@example.com" { Err("no".to_string()) } else { Ok(()) });
    }
    assert_eq!(sent, vec!["r0@example.com", "r1@example.com"]);
    let (rows, _) = d.finish();
    let headers = session(&app).table.headers.clone();
    let cmd = app.update(Message::EndSend(Table { headers, list: rows }));
    match cmd {
        Command::StoreMailData(md) => {
            assert_eq!(md.title, "Report");
            assert_eq!(md.remark, "Thanks");
        }
        _ => panic!("expected the mail data to be stored"),
    }
    let s = session(&app);
    assert_eq!(s.send_message, summary(2));
    assert_eq!(s.send_message, "2 rows remain undelivered");
    let emails: Vec<&str> = s.table.list.iter().map(|t| t.email.as_str()).collect();
    assert_eq!(emails, vec!["r0@example.com", "r2@example.com"]);
}

#[test]
fn select_all_in_session() {
    let mut app = logged_in();
    app.update(Message::Imported(sample_table(2)));
    app.update(Message::AllSelect(false));
    let s = session(&app);
    assert!(s.table.list.iter().all(|t| !t.status));
    assert!(s.table.headers.iter().all(|h| !h.check));
}

#[test]
fn paging() {
    let mut app = logged_in();
    app.update(Message::Imported(sample_table(120)));
    assert_eq!(session(&app).page_bounds(), (0, 50));
    app.update(Message::PrevPage);
    assert_eq!(session(&app).cur_page, 0);
    app.update(Message::NextPage);
    app.update(Message::NextPage);
    assert_eq!(session(&app).page_bounds(), (100, 120));
    app.update(Message::NextPage);
    assert_eq!(session(&app).cur_page, 2);
    app.update(Message::PrevPage);
    assert_eq!(session(&app).page_bounds(), (50, 100));
    app.update(Message::Imported(sample_table(50)));
    assert_eq!(session(&app).cur_page, 1);
    assert_eq!(session(&app).page_bounds(), (50, 50));
    app.update(Message::NextPage);
    assert_eq!(session(&app).cur_page, 1);
    app.update(Message::PrevPage);
    assert_eq!(session(&app).page_bounds(), (0, 50));
}

#[test]
fn end_of_pass_keeps_page() {
    let mut app = logged_in();
    app.update(Message::Imported(sample_table(120)));
    app.update(Message::NextPage);
    app.update(Message::AllSelect(false));
    let d = match app.update(Message::SendConfirmed(true)) {
        Command::Send(d) => d,
        _ => panic!("expected a pass"),
    };
    assert_eq!(session(&app).cur_page, 1);
    let mut d = d;
    assert!(d.next_mail().is_none());
    let (rows, _) = d.finish();
    let headers = session(&app).table.headers.clone();
    app.update(Message::EndSend(Table { headers, list: rows }));
    let s = session(&app);
    assert_eq!(s.cur_page, 1);
    assert_eq!(s.table.list.len(), 120);
    assert_eq!(s.page_bounds(), (50, 100));
    assert_eq!(s.send_message, "120 rows remain undelivered");
}

#[test]
fn accepted_probe_without_credentials_is_ignored() {
    let mut app = Mailbox::new();
    let cmd = app.update(Message::LoginChecked(true, MailData { title: "T".to_string(), remark: "R".to_string() }));
    assert!(matches!(cmd, Command::Nothing));
    assert!(matches!(app, Mailbox::Config(_)));
    app.update(Message::Username("jdoe".to_string()));
    app.update(Message::LoginChecked(true, MailData { title: "T".to_string(), remark: "R".to_string() }));
    assert!(matches!(app, Mailbox::Config(_)));
}

#[test]
fn trimming_follows_unicode_white_space() {
    let mut app = logged_in();
    for raw in ["\u{3000}Report\u{a0}", "\u{2028} x y \u{85}", "   ", "", "a"] {
        app.update(Message::Title(raw.to_string()));
        assert_eq!(session(&app).title, raw.trim());
    }
}

#[test]
fn out_of_range_toggle_is_ignored() {
    let mut app = logged_in();
    app.update(Message::Imported(sample_table(1)));
    app.update(Message::Enable(5, false));
    assert!(session(&app).table.list[0].status);
}
