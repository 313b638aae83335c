//! The operator's workflow: first the credentials, then the main phase
//! where a table is imported, edited and dispatched.
//!
//! `Mailbox::update` decides, for the current phase and one event, the next
//! state and the one piece of outside work to do; the caller does that work
//! and reports back with another event.

use vstd::prelude::*;
use crate::model::{Header, Table, Tasks, TasksView, HeaderView, headers_view, with_status, with_check, duplicate_headers};
use crate::dispatch::{Dispatch, summary, summary_of, sender_of};

verus! {

/// Rows shown on one page.
pub const PAGE_SIZE: usize = 50;

pub const SENDING: &'static str = "sending...";

/// The characters of the Unicode White_Space property.
pub open spec fn is_white_space(c: char) -> bool {
    ('\u{9}' <= c && c <= '\u{d}') || c == ' ' || c == '\u{85}' || c == '\u{a0}' || c == '\u{1680}'
        || ('\u{2000}' <= c && c <= '\u{200a}') || c == '\u{2028}' || c == '\u{2029}' || c
        == '\u{202f}' || c == '\u{205f}' || c == '\u{3000}'
}

/// `s` without its leading white space.
pub open spec fn trim_start(s: Seq<char>) -> Seq<char>
    decreases s.len(),
{
    if s.len() > 0 && is_white_space(s[0]) {
        trim_start(s.drop_first())
    } else {
        s
    }
}

/// `s` without its trailing white space.
pub open spec fn trim_end(s: Seq<char>) -> Seq<char>
    decreases s.len(),
{
    if s.len() > 0 && is_white_space(s.last()) {
        trim_end(s.drop_last())
    } else {
        s
    }
}

/// `s` without white space at either end.
pub open spec fn trimmed(s: Seq<char>) -> Seq<char> {
    trim_end(trim_start(s))
}

fn white_space(c: char) -> (r: bool)
    ensures
        r == is_white_space(c),
{
    ('\u{9}' <= c && c <= '\u{d}') || c == ' ' || c == '\u{85}' || c == '\u{a0}' || c == '\u{1680}'
        || ('\u{2000}' <= c && c <= '\u{200a}') || c == '\u{2028}' || c == '\u{2029}' || c
        == '\u{202f}' || c == '\u{205f}' || c == '\u{3000}'
}

/// The text without white space at either end.
pub fn trim_text(s: &str) -> (r: String)
    ensures
        r@ == trimmed(s@),
{
    let n = s.unicode_len();
    assert(s@.subrange(0, n as int) =~= s@);
    let mut i: usize = 0;
    while i < n
        invariant
            n == s@.len(),
            i <= n,
            trim_start(s@) == trim_start(s@.subrange(i as int, n as int)),
        ensures
            i <= n,
            trim_start(s@) == s@.subrange(i as int, n as int),
        decreases n - i,
    {
        if !white_space(s.get_char(i)) {
            break;
        }
        assert(s@.subrange(i as int, n as int).drop_first() =~= s@.subrange(i + 1, n as int));
        i = i + 1;
    }
    let mut j: usize = n;
    while j > i
        invariant
            n == s@.len(),
            i <= j <= n,
            trim_end(s@.subrange(i as int, n as int)) == trim_end(s@.subrange(i as int, j as int)),
        ensures
            i <= j,
            trim_end(s@.subrange(i as int, n as int)) == s@.subrange(i as int, j as int),
        decreases j - i,
    {
        if !white_space(s.get_char(j - 1)) {
            break;
        }
        assert(s@.subrange(i as int, j as int).drop_last() =~= s@.subrange(i as int, j - 1));
        j = j - 1;
    }
    String::from_str(s.substring_char(i, j))
}

/// The account the messages are sent from.
#[derive(Clone, Debug, PartialEq, Eq)]
pub struct AuthState {
    pub username: String,
    pub password: String,
    /// Whether the credentials are remembered for the next start.
    pub save: bool,
}

/// The subject line and closing remark remembered between passes.
#[derive(Clone, Debug, PartialEq, Eq)]
pub struct MailData {
    pub title: String,
    pub remark: String,
}

/// The main phase.
pub struct Session {
    pub table: Table,
    pub title: String,
    pub remark: String,
    pub auth: AuthState,
    pub send_message: String,
    pub cur_page: usize,
}

pub enum Mailbox {
    /// Waiting for valid credentials.
    Config(AuthState),
    /// Authenticated.
    Main(Session),
}

pub enum Message {
    /// Remembered credentials were read.
    Loaded(AuthState),
    Username(String),
    Password(String),
    Save(bool),
    /// The operator asks to log in.
    Login,
    /// Whether the credentials were accepted, with the remembered subject
    /// line and remark.
    LoginChecked(bool, MailData),
    Title(String),
    Remark(String),
    /// The operator asks to import a workbook.
    Import,
    /// A workbook was read.
    Imported(Table),
    /// One row was included or excluded.
    Enable(usize, bool),
    /// Every row was included or excluded.
    AllSelect(bool),
    /// The operator asks to send.
    BeginSend,
    /// The operator's answer to the send confirmation.
    SendConfirmed(bool),
    /// A pass ended with this residual table.
    EndSend(Table),
    NextPage,
    PrevPage,
    Nop,
}

/// The outside work that an event calls for.
pub enum Command {
    Nothing,
    /// Check these credentials with the transport and answer with
    /// `LoginChecked`.
    Probe(String, String),
    /// Tell the operator that the credentials were refused.
    LoginRefused,
    /// Remember these credentials for the next start.
    StoreAuth(AuthState),
    /// Forget any remembered credentials.
    ForgetAuth,
    /// Let the operator pick a workbook and answer with `Imported`.
    PickWorkbook,
    /// Ask the operator to confirm and answer with `SendConfirmed`.
    ConfirmSend,
    /// Run this pass to its end and answer with `EndSend`.
    Send(Dispatch),
    /// Remember the subject line and remark.
    StoreMailData(MailData),
}

pub struct AuthView {
    pub username: Seq<char>,
    pub password: Seq<char>,
    pub save: bool,
}

pub struct SessionView {
    pub headers: Seq<HeaderView>,
    pub rows: Seq<TasksView>,
    pub title: Seq<char>,
    pub remark: Seq<char>,
    pub auth: AuthView,
    pub send_message: Seq<char>,
    pub cur_page: nat,
}

impl View for AuthState {
    type V = AuthView;

    open spec fn view(&self) -> AuthView {
        AuthView { username: self.username@, password: self.password@, save: self.save }
    }
}

impl View for Session {
    type V = SessionView;

    open spec fn view(&self) -> SessionView {
        SessionView {
            headers: self.table.view_headers(),
            rows: self.table.view_rows(),
            title: self.title@,
            remark: self.remark@,
            auth: self.auth@,
            send_message: self.send_message@,
            cur_page: self.cur_page as nat,
        }
    }
}

/// What an event does in the credentials phase, starting from `a`.
pub open spec fn config_post(a: AuthView, m: Message, after: Mailbox, cmd: Command) -> bool {
    let stays = after matches Mailbox::Config(b) && b@ == a;
    match m {
        Message::Loaded(l) => after matches Mailbox::Config(b) && b@ == l@ && cmd is Nothing,
        Message::Username(u) => after matches Mailbox::Config(b) && b@ == (AuthView {
            username: u@,
            ..a
        }) && cmd is Nothing,
        Message::Password(p) => after matches Mailbox::Config(b) && b@ == (AuthView {
            password: p@,
            ..a
        }) && cmd is Nothing,
        Message::Save(v) => after matches Mailbox::Config(b) && b@ == (AuthView { save: v, ..a })
            && cmd is Nothing,
        Message::Login => stays && if a.username.len() == 0 || a.password.len() == 0 {
            cmd is Nothing
        } else {
            cmd matches Command::Probe(u, p) && u@ == a.username && p@ == a.password
        },
        Message::LoginChecked(ok, md) => if a.username.len() == 0 || a.password.len() == 0 {
            stays && cmd is Nothing
        } else if !ok {
            stays && cmd is LoginRefused
        } else {
            &&& after matches Mailbox::Main(s) && s@ == (SessionView {
                headers: Seq::empty(),
                rows: Seq::empty(),
                title: md.title@,
                remark: md.remark@,
                auth: a,
                send_message: Seq::empty(),
                cur_page: 0,
            })
            &&& if a.save {
                cmd matches Command::StoreAuth(b) && b@ == a
            } else {
                cmd is ForgetAuth
            }
        },
        _ => stays && cmd is Nothing,
    }
}

/// What an event does in the main phase, starting from `s`.
pub open spec fn main_post(s: SessionView, m: Message, after: Mailbox, cmd: Command) -> bool {
    let stays = after matches Mailbox::Main(f) && f@ == s;
    match m {
        Message::Title(v) => after matches Mailbox::Main(f) && f@ == (SessionView {
            title: trimmed(v@),
            ..s
        }) && cmd is Nothing,
        Message::Remark(v) => after matches Mailbox::Main(f) && f@ == (SessionView {
            remark: trimmed(v@),
            ..s
        }) && cmd is Nothing,
        Message::Import => stays && cmd is PickWorkbook,
        Message::Imported(t) => cmd is Nothing && if t.wf() {
            after matches Mailbox::Main(f) && f@ == (SessionView {
                headers: t.view_headers(),
                rows: t.view_rows(),
                ..s
            })
        } else {
            stays
        },
        Message::Enable(i, v) => cmd is Nothing && if i < s.rows.len() {
            after matches Mailbox::Main(f) && f@ == (SessionView {
                rows: s.rows.update(i as int, TasksView { status: v, ..s.rows[i as int] }),
                ..s
            })
        } else {
            stays
        },
        Message::AllSelect(v) => cmd is Nothing && (after matches Mailbox::Main(f) && f@ == (
        SessionView { rows: with_status(s.rows, v), headers: with_check(s.headers, v), ..s })),
        Message::BeginSend => stays && if s.rows.len() == 0 {
            cmd is Nothing
        } else {
            cmd is ConfirmSend
        },
        Message::SendConfirmed(yes) => if !yes || s.rows.len() == 0 {
            stays && cmd is Nothing
        } else {
            &&& after matches Mailbox::Main(f) && f@ == (SessionView {
                rows: Seq::empty(),
                send_message: SENDING@,
                ..s
            })
            &&& cmd matches Command::Send(d) && {
                &&& d.wf()
                &&& d.rows() == s.rows
                &&& d.headers() == s.headers
                &&& d.title() == s.title
                &&& d.remark() == s.remark
                &&& d.sender() == sender_of(s.auth.username)
                &&& d.position() == 0
                &&& !d.awaiting()
                &&& d.delivered() == Seq::<bool>::empty()
                &&& d.failures() == Seq::<(Seq<char>, Seq<char>)>::empty()
            }
        },
        Message::EndSend(t) => if t.wf() && headers_view(t.headers@) == s.headers {
            &&& after matches Mailbox::Main(f) && f@ == (SessionView {
                rows: t.view_rows(),
                send_message: summary_of(t.list@.len()),
                ..s
            })
            &&& cmd matches Command::StoreMailData(md) && md.title@ == s.title && md.remark@
                == s.remark
        } else {
            stays && cmd is Nothing
        },
        Message::NextPage => cmd is Nothing && (after matches Mailbox::Main(f) && f@ == (
        SessionView {
            cur_page: if s.cur_page + 1 < page_count(s.rows.len()) {
                s.cur_page + 1
            } else {
                s.cur_page
            },
            ..s
        })),
        Message::PrevPage => cmd is Nothing && (after matches Mailbox::Main(f) && f@ == (
        SessionView {
            cur_page: if s.cur_page > 0 {
                (s.cur_page - 1) as nat
            } else {
                0
            },
            ..s
        })),
        _ => stays && cmd is Nothing,
    }
}

/// The number of pages that `len` rows fill.
pub open spec fn page_count(len: nat) -> nat {
    (len + 49) / 50
}

impl AuthState {
    /// A copy with the same fields.
    pub fn duplicate(&self) -> (r: AuthState)
        ensures
            r.username@ == self.username@,
            r.password@ == self.password@,
            r.save == self.save,
    {
        AuthState { username: self.username.clone(), password: self.password.clone(), save: self.save }
    }
}

impl Session {
    pub open spec fn wf(&self) -> bool {
        self.table.wf()
    }

    /// The first row and one past the last row of the current page.
    pub fn page_bounds(&self) -> (r: (usize, usize))
        ensures
            r.0 == if self.cur_page * 50 <= self.table.list@.len() {
                self.cur_page * 50
            } else {
                self.table.list@.len() as int
            },
            r.1 == if r.0 + 50 <= self.table.list@.len() {
                r.0 + 50
            } else {
                self.table.list@.len() as int
            },
    {
        let len = self.table.list.len();
        let start: usize = if self.cur_page <= len / PAGE_SIZE {
            proof {
                let c = self.cur_page as int;
                let l = len as int;
                assert(c * 50 <= l) by (nonlinear_arith)
                    requires c <= l / 50, l >= 0, c >= 0;
            }
            self.cur_page * PAGE_SIZE
        } else {
            proof {
                let c = self.cur_page as int;
                let l = len as int;
                assert(c * 50 > l) by (nonlinear_arith)
                    requires c > l / 50, l >= 0;
            }
            len
        };
        let end: usize = if len - start >= PAGE_SIZE {
            start + PAGE_SIZE
        } else {
            len
        };
        (start, end)
    }
}

fn config_step(a: &mut AuthState, m: Message) -> (r: (Command, Option<Session>))
    ensures
        config_post(
            old(a)@,
            m,
            if r.1 is Some {
                Mailbox::Main(r.1->0)
            } else {
                Mailbox::Config(*final(a))
            },
            r.0,
        ),
        r.1 matches Some(s) ==> s.wf(),
{
    match m {
        Message::Loaded(l) => {
            *a = l;
            (Command::Nothing, Option::None)
        },
        Message::Username(u) => {
            a.username = u;
            (Command::Nothing, Option::None)
        },
        Message::Password(p) => {
            a.password = p;
            (Command::Nothing, Option::None)
        },
        Message::Save(v) => {
            a.save = v;
            (Command::Nothing, Option::None)
        },
        Message::Login => {
            if a.username.as_str().is_empty() || a.password.as_str().is_empty() {
                (Command::Nothing, Option::None)
            } else {
                (Command::Probe(a.username.clone(), a.password.clone()), Option::None)
            }
        },
        Message::LoginChecked(ok, md) => {
            if a.username.as_str().is_empty() || a.password.as_str().is_empty() {
                (Command::Nothing, Option::None)
            } else if !ok {
                (Command::LoginRefused, Option::None)
            } else {
                let cmd = if a.save {
                    Command::StoreAuth(a.duplicate())
                } else {
                    Command::ForgetAuth
                };
                let s = Session {
                    table: Table::empty(),
                    title: md.title,
                    remark: md.remark,
                    auth: a.duplicate(),
                    send_message: String::new(),
                    cur_page: 0,
                };
                assert(s.table.view_rows() =~= Seq::<TasksView>::empty());
                assert(s.table.view_headers() =~= Seq::<HeaderView>::empty());
                (cmd, Option::Some(s))
            }
        },
        _ => (Command::Nothing, Option::None),
    }
}

fn main_step(s: &mut Session, m: Message) -> (cmd: Command)
    requires
        old(s).wf(),
    ensures
        final(s).wf(),
        main_post(old(s)@, m, Mailbox::Main(*final(s)), cmd),
{
    match m {
        Message::Title(v) => {
            s.title = trim_text(v.as_str());
            Command::Nothing
        },
        Message::Remark(v) => {
            s.remark = trim_text(v.as_str());
            Command::Nothing
        },
        Message::Import => Command::PickWorkbook,
        Message::Imported(t) => {
            if t.is_aligned() {
                s.table = t;
            }
            Command::Nothing
        },
        Message::Enable(i, v) => {
            if i < s.table.list.len() {
                s.table.set_selected(i, v);
            }
            Command::Nothing
        },
        Message::AllSelect(v) => {
            s.table.select_all(v);
            Command::Nothing
        },
        Message::BeginSend => {
            if s.table.list.len() == 0 {
                Command::Nothing
            } else {
                Command::ConfirmSend
            }
        },
        Message::SendConfirmed(yes) => {
            if !yes || s.table.list.len() == 0 {
                Command::Nothing
            } else {
                let mut rows: Vec<Tasks> = Vec::new();
                std::mem::swap(&mut s.table.list, &mut rows);
                let table = Table { headers: duplicate_headers(&s.table.headers), list: rows };
                let d = Dispatch::new(
                    table,
                    s.title.clone(),
                    s.remark.clone(),
                    s.auth.username.as_str(),
                );
                s.send_message = String::from_str(SENDING);
                assert(s.table.view_rows() =~= Seq::<TasksView>::empty());
                Command::Send(d)
            }
        },
        Message::EndSend(t) => {
            if t.is_aligned() && same_headers(&t.headers, &s.table.headers) {
                assert(headers_view(t.headers@).len() == t.headers@.len());
                assert(headers_view(s.table.headers@).len() == s.table.headers@.len());
                s.send_message = summary(t.list.len());
                s.table.list = t.list;
                Command::StoreMailData(MailData { title: s.title.clone(), remark: s.remark.clone() })
            } else {
                Command::Nothing
            }
        },
        Message::NextPage => {
            let len = s.table.list.len();
            let c = s.cur_page;
            if c < len / PAGE_SIZE {
                proof {
                    assert((c + 1) * 50 <= len) by (nonlinear_arith)
                        requires c < len / 50;
                }
                if (c + 1) * PAGE_SIZE < len {
                    proof {
                        assert(c + 1 < (len + 49) / 50) by (nonlinear_arith)
                            requires (c + 1) * 50 < len;
                    }
                    s.cur_page = c + 1;
                } else {
                    proof {
                        assert(c + 1 >= (len + 49) / 50) by (nonlinear_arith)
                            requires (c + 1) * 50 >= len;
                    }
                }
            } else {
                proof {
                    assert(c + 1 >= (len + 49) / 50) by (nonlinear_arith)
                        requires c >= len / 50;
                }
            }
            Command::Nothing
        },
        Message::PrevPage => {
            if s.cur_page > 0 {
                s.cur_page = s.cur_page - 1;
            }
            Command::Nothing
        },
        _ => Command::Nothing,
    }
}

/// Whether two schemas have the same columns, field for field.
pub fn same_headers(a: &Vec<Header>, b: &Vec<Header>) -> (r: bool)
    ensures
        r == (headers_view(a@) == headers_view(b@)),
{
    if a.len() != b.len() {
        assert(headers_view(a@).len() != headers_view(b@).len());
        return false;
    }
    let mut i: usize = 0;
    while i < a.len()
        invariant
            i <= a@.len(),
            a@.len() == b@.len(),
            forall|j: int| 0 <= j < i ==> (#[trigger] a@[j])@ == b@[j]@,
        decreases a@.len() - i,
    {
        if !(a[i].name == b[i].name && a[i].width == b[i].width && a[i].check == b[i].check) {
            assert(headers_view(a@)[i as int] != headers_view(b@)[i as int]);
            return false;
        }
        i = i + 1;
    }
    assert(headers_view(a@) =~= headers_view(b@));
    true
}

impl Mailbox {
    /// The credentials phase with empty credentials that are to be
    /// remembered.
    pub fn new() -> (r: Mailbox)
        ensures
            r.wf(),
            r matches Mailbox::Config(a) && a@ == (AuthView {
                username: Seq::empty(),
                password: Seq::empty(),
                save: true,
            }),
    {
        Mailbox::Config(AuthState { username: String::new(), password: String::new(), save: true })
    }

    pub open spec fn wf(&self) -> bool {
        match self {
            Mailbox::Config(_) => true,
            Mailbox::Main(s) => s.wf(),
        }
    }

    /// Applies one event and names the outside work it calls for.
    pub fn update(&mut self, message: Message) -> (cmd: Command)
        requires
            old(self).wf(),
        ensures
            final(self).wf(),
            *old(self) matches Mailbox::Config(a) ==> config_post(a@, message, *final(self), cmd),
            *old(self) matches Mailbox::Main(s) ==> main_post(s@, message, *final(self), cmd),
    {
        match self {
            Mailbox::Config(a) => {
                let (cmd, next) = config_step(a, message);
                match next {
                    Option::Some(s) => {
                        *self = Mailbox::Main(s);
                    },
                    Option::None => {},
                }
                cmd
            },
            Mailbox::Main(s) => main_step(s, message),
        }
    }
}

} // verus!
