//! One dispatch pass over a table.
//!
//! The pass is a state machine driven by its caller: `next_mail` names the
//! message for the next selected row (carrying unselected rows over
//! untouched), the caller hands it to the transport, and `record` takes the
//! outcome. Rows that were not delivered make up the residual table, in
//! the order they came in, for the next pass.

use vstd::prelude::*;
use crate::model::{Header, HeaderView, Table, Tasks, TasksView, headers_view, rows_view, with_status};
use crate::html::{generate_html, html_of};
use crate::text::{nat_digits, decimal_usize};

verus! {

/// What follows the user name in the sender address.
pub const SENDER_DOMAIN: &'static str = "@wondersgroup.com";

pub const ALL_DELIVERED: &'static str = "all delivered";

pub const ONE_UNDELIVERED: &'static str = "1 row remains undelivered";

pub const MANY_UNDELIVERED: &'static str = " rows remain undelivered";

/// One message to hand to the transport.
#[derive(Clone, Debug, PartialEq, Eq)]
pub struct Outgoing {
    pub subject: String,
    pub body: String,
    pub from: String,
    pub to: String,
}

/// A send that the transport refused.
#[derive(Clone, Debug, PartialEq, Eq)]
pub struct Failure {
    pub email: String,
    pub error: String,
}

/// The subject of a recipient's message: the name in brackets, then the
/// shared subject line.
pub open spec fn subject_of(name: Seq<char>, title: Seq<char>) -> Seq<char> {
    seq!['['] + name + seq![']'] + title
}

/// The sender address of an authenticated user.
pub open spec fn sender_of(username: Seq<char>) -> Seq<char> {
    username + SENDER_DOMAIN@
}

/// Whether a row stays for the next pass: it was not selected, or its send
/// failed.
pub open spec fn kept(t: TasksView, delivered: bool) -> bool {
    !t.status || !delivered
}

/// The rows left after a pass in which the send for row `i` succeeded
/// exactly when `delivered[i]`.
pub open spec fn residual_of(rows: Seq<TasksView>, delivered: Seq<bool>) -> Seq<TasksView>
    decreases rows.len(),
{
    if rows.len() == 0 {
        Seq::empty()
    } else {
        let n = rows.len() - 1;
        let prev = residual_of(rows.drop_last(), delivered);
        if kept(rows[n], delivered[n]) {
            prev.push(rows[n])
        } else {
            prev
        }
    }
}

proof fn lemma_residual_prefix(rows: Seq<TasksView>, d1: Seq<bool>, d2: Seq<bool>)
    requires
        forall|i: int| 0 <= i < rows.len() ==> d1[i] == d2[i],
    ensures
        residual_of(rows, d1) == residual_of(rows, d2),
    decreases rows.len(),
{
    if rows.len() > 0 {
        lemma_residual_prefix(rows.drop_last(), d1, d2);
    }
}

/// Whether some row at or after `from` is selected.
pub open spec fn has_selected_from(rows: Seq<TasksView>, from: int) -> bool {
    exists|j: int| from <= j < rows.len() && (#[trigger] rows[j]).status
}

/// The text that sums up a pass with `remaining` rows left.
pub open spec fn summary_of(remaining: nat) -> Seq<char> {
    if remaining == 0 {
        ALL_DELIVERED@
    } else if remaining == 1 {
        ONE_UNDELIVERED@
    } else {
        nat_digits(remaining) + MANY_UNDELIVERED@
    }
}

/// Sums up a pass by the number of rows left undelivered.
pub fn summary(remaining: usize) -> (r: String)
    ensures
        r@ == summary_of(remaining as nat),
{
    if remaining == 0 {
        String::from_str(ALL_DELIVERED)
    } else if remaining == 1 {
        String::from_str(ONE_UNDELIVERED)
    } else {
        let mut s = decimal_usize(remaining);
        s.append(MANY_UNDELIVERED);
        s
    }
}

/// A dispatch pass in progress.
pub struct Dispatch {
    headers: Vec<Header>,
    title: String,
    remark: String,
    from: String,
    rows: Vec<Tasks>,
    next: usize,
    awaiting: bool,
    residual: Vec<Tasks>,
    failures: Vec<Failure>,
    model: Ghost<Seq<TasksView>>,
    delivered: Ghost<Seq<bool>>,
    failed: Ghost<Seq<(Seq<char>, Seq<char>)>>,
}

fn blank_row() -> (r: Tasks) {
    Tasks { email: String::new(), name: String::new(), seq: 0, info: Vec::new(), status: false }
}

impl Dispatch {
    /// The rows the pass was started on.
    pub closed spec fn rows(&self) -> Seq<TasksView> {
        self.model@
    }

    /// How many rows have been dealt with.
    pub closed spec fn position(&self) -> nat {
        self.next as nat
    }

    /// Whether the message for the row at `position` is out and its
    /// outcome not yet recorded.
    pub closed spec fn awaiting(&self) -> bool {
        self.awaiting
    }

    /// For each row dealt with, whether it was delivered.
    pub closed spec fn delivered(&self) -> Seq<bool> {
        self.delivered@
    }

    /// For each refused send, the recipient and the transport's error.
    pub closed spec fn failures(&self) -> Seq<(Seq<char>, Seq<char>)> {
        self.failed@
    }

    pub closed spec fn headers(&self) -> Seq<HeaderView> {
        headers_view(self.headers@)
    }

    pub closed spec fn title(&self) -> Seq<char> {
        self.title@
    }

    pub closed spec fn remark(&self) -> Seq<char> {
        self.remark@
    }

    pub closed spec fn sender(&self) -> Seq<char> {
        self.from@
    }

    pub closed spec fn wf(&self) -> bool {
        &&& self.next <= self.rows@.len()
        &&& self.rows@.len() == self.model@.len()
        &&& forall|j: int|
            self.next <= j < self.rows@.len() ==> (#[trigger] self.rows@[j])@ == self.model@[j]
        &&& self.delivered@.len() == self.next
        &&& forall|j: int| 0 <= j < self.next && !(#[trigger] self.model@[j]).status ==> !self.delivered@[j]
        &&& self.awaiting ==> self.next < self.rows@.len() && self.model@[self.next as int].status
        &&& rows_view(self.residual@) == residual_of(self.model@.take(self.next as int), self.delivered@)
        &&& self.failures@.len() == self.failed@.len()
        &&& forall|j: int|
            0 <= j < self.failed@.len() ==> (#[trigger] self.failed@[j]) == (
                self.failures@[j].email@,
                self.failures@[j].error@,
            )
    }

    /// Starts a pass over the rows of `table`.
    pub fn new(table: Table, title: String, remark: String, username: &str) -> (r: Dispatch)
        ensures
            r.wf(),
            r.rows() == table.view_rows(),
            r.headers() == table.view_headers(),
            r.title() == title@,
            r.remark() == remark@,
            r.sender() == sender_of(username@),
            r.position() == 0,
            !r.awaiting(),
            r.delivered() == Seq::<bool>::empty(),
            r.failures() == Seq::<(Seq<char>, Seq<char>)>::empty(),
    {
        let mut from = String::from_str(username);
        from.append(SENDER_DOMAIN);
        let ghost model = table.view_rows();
        let r = Dispatch {
            headers: table.headers,
            title,
            remark,
            from,
            rows: table.list,
            next: 0,
            awaiting: false,
            residual: Vec::new(),
            failures: Vec::new(),
            model: Ghost(model),
            delivered: Ghost(Seq::empty()),
            failed: Ghost(Seq::empty()),
        };
        assert(r.model@.take(0) =~= Seq::<TasksView>::empty());
        assert(rows_view(r.residual@) =~= Seq::<TasksView>::empty());
        r
    }

    /// Carries unselected rows over and, if a selected row is left, returns
    /// the message for it and waits for its outcome.
    pub fn next_mail(&mut self) -> (r: Option<Outgoing>)
        requires
            old(self).wf(),
            !old(self).awaiting(),
        ensures
            final(self).wf(),
            final(self).rows() == old(self).rows(),
            final(self).headers() == old(self).headers(),
            final(self).title() == old(self).title(),
            final(self).remark() == old(self).remark(),
            final(self).sender() == old(self).sender(),
            final(self).failures() == old(self).failures(),
            old(self).position() <= final(self).position(),
            forall|j: int|
                old(self).position() <= j < final(self).position() ==> !(
                #[trigger] old(self).rows()[j]).status,
            final(self).delivered() == old(self).delivered() + Seq::new(
                (final(self).position() - old(self).position()) as nat,
                |j: int| false,
            ),
            r is None <==> !has_selected_from(old(self).rows(), old(self).position() as int),
            r is None ==> final(self).position() == old(self).rows().len() && !final(self).awaiting(),
            r matches Some(m) ==> {
                let k = final(self).position() as int;
                let t = old(self).rows()[k];
                &&& k < old(self).rows().len()
                &&& t.status
                &&& final(self).awaiting()
                &&& m.subject@ == subject_of(t.name, old(self).title())
                &&& m.body@ == html_of(t, old(self).headers(), old(self).remark())
                &&& m.from@ == old(self).sender()
                &&& m.to@ == t.email
            },
    {
        let ghost start = self.next as int;
        let ghost d0 = self.delivered@;
        while self.next < self.rows.len()
            invariant
                self.wf(),
                !self.awaiting,
                start <= self.next,
                self.model@ == old(self).model@,
                self.headers@ == old(self).headers@,
                self.title@ == old(self).title@,
                self.remark@ == old(self).remark@,
                self.from@ == old(self).from@,
                self.failed@ == old(self).failed@,
                d0 == old(self).delivered@,
                start == old(self).next,
                forall|j: int| start <= j < self.next ==> !(#[trigger] self.model@[j]).status,
                self.delivered@ == d0 + Seq::new((self.next - start) as nat, |j: int| false),
            decreases self.rows@.len() - self.next,
        {
            let i = self.next;
            if self.rows[i].status {
                let row = &self.rows[i];
                let mut subject = String::from_str("[");
                subject.append(row.name.as_str());
                subject.append("]");
                subject.append(self.title.as_str());
                proof {
                    reveal_strlit("[");
                    reveal_strlit("]");
                    assert("["@ =~= seq!['[']);
                    assert("]"@ =~= seq![']']);
                }
                assert(subject@ =~= subject_of(row.name@, self.title@));
                let body = generate_html(row, self.headers.as_slice(), self.remark.as_str());
                let m = Outgoing {
                    subject,
                    body,
                    from: self.from.clone(),
                    to: row.email.clone(),
                };
                self.awaiting = true;
                return Some(m);
            }
            let ghost before = self.residual@;
            let mut row = blank_row();
            self.rows.set_and_swap(i, &mut row);
            self.residual.push(row);
            proof {
                let m = self.model@;
                assert(m.take(i + 1).drop_last() =~= m.take(i as int));
                assert(rows_view(self.residual@) =~= rows_view(before).push(m[i as int]));
                let d = self.delivered@;
                self.delivered@ = d.push(false);
                lemma_residual_prefix(m.take(i as int), d, d.push(false));
            }
            self.next = i + 1;
            assert(self.delivered@ =~= d0 + Seq::new((self.next - start) as nat, |j: int| false));
        }
        None
    }

    /// Takes the transport's outcome for the message that `next_mail`
    /// returned: a delivered row is dropped, a refused one is kept and its
    /// failure noted.
    pub fn record(&mut self, outcome: Result<(), String>)
        requires
            old(self).wf(),
            old(self).awaiting(),
        ensures
            final(self).wf(),
            !final(self).awaiting(),
            final(self).rows() == old(self).rows(),
            final(self).headers() == old(self).headers(),
            final(self).title() == old(self).title(),
            final(self).remark() == old(self).remark(),
            final(self).sender() == old(self).sender(),
            final(self).position() == old(self).position() + 1,
            final(self).delivered() == old(self).delivered().push(outcome is Ok),
            outcome is Ok ==> final(self).failures() == old(self).failures(),
            outcome matches Err(e) ==> final(self).failures() == old(self).failures().push(
                (old(self).rows()[old(self).position() as int].email, e@),
            ),
    {
        let i = self.next;
        let ghost m = self.model@;
        let ghost before = self.residual@;
        let ghost d = self.delivered@;
        let n = self.rows.len();
        assert(i < n);
        assert(m.take(i + 1).drop_last() =~= m.take(i as int));
        proof {
            lemma_residual_prefix(m.take(i as int), d, d.push(outcome is Ok));
        }
        match outcome {
            Ok(()) => {
                proof {
                    self.delivered@ = self.delivered@.push(true);
                }
            },
            Err(error) => {
                let mut row = blank_row();
                self.rows.set_and_swap(i, &mut row);
                let email = row.email.clone();
                self.residual.push(row);
                self.failures.push(Failure { email, error });
                proof {
                    assert(rows_view(self.residual@) =~= rows_view(before).push(m[i as int]));
                    self.delivered@ = self.delivered@.push(false);
                    self.failed@ = self.failed@.push((m[i as int].email, error@));
                }
            },
        }
        self.next = i + 1;
        self.awaiting = false;
    }

    /// Ends a finished pass: the rows to keep for the next pass, and the
    /// refused sends.
    pub fn finish(self) -> (r: (Vec<Tasks>, Vec<Failure>))
        requires
            self.wf(),
            !self.awaiting(),
            self.position() == self.rows().len(),
        ensures
            rows_view(r.0@) == residual_of(self.rows(), self.delivered()),
            self.delivered().len() == self.rows().len(),
            forall|j: int|
                0 <= j < self.rows().len() && !(#[trigger] self.rows()[j]).status
                    ==> !self.delivered()[j],
            r.1@.len() == self.failures().len(),
            forall|j: int|
                0 <= j < r.1@.len() ==> (#[trigger] self.failures()[j]) == (
                    r.1@[j].email@,
                    r.1@[j].error@,
                ),
    {
        assert(self.model@.take(self.next as int) =~= self.model@);
        (self.residual, self.failures)
    }
}

/// Each row paired with the outcome of its send.
pub open spec fn outcomes(rows: Seq<TasksView>, delivered: Seq<bool>) -> Seq<(TasksView, bool)> {
    Seq::new(rows.len(), |i: int| (rows[i], delivered[i]))
}

/// Partial-failure containment: whatever subset of the selected rows the
/// transport refuses, the rows left after the pass are exactly the
/// unselected rows and the refused ones, in the order they came in and with
/// their fields unchanged.
pub proof fn lemma_partial_failure(rows: Seq<TasksView>, delivered: Seq<bool>)
    requires
        rows.len() == delivered.len(),
    ensures
        residual_of(rows, delivered) == outcomes(rows, delivered).filter(
            |p: (TasksView, bool)| kept(p.0, p.1),
        ).map_values(|p: (TasksView, bool)| p.0),
    decreases rows.len(),
{
    reveal(Seq::filter);
    let f = |p: (TasksView, bool)| kept(p.0, p.1);
    let g = |p: (TasksView, bool)| p.0;
    let o = outcomes(rows, delivered);
    if rows.len() > 0 {
        lemma_partial_failure(rows.drop_last(), delivered.drop_last());
        lemma_residual_prefix(rows.drop_last(), delivered, delivered.drop_last());
        assert(outcomes(rows.drop_last(), delivered.drop_last()) =~= o.drop_last());
        let rest = o.drop_last().filter(f);
        assert(rest.push(o.last()).map_values(g) =~= rest.map_values(g).push(o.last().0));
    } else {
        assert(o.filter(f).map_values(g) =~= Seq::<TasksView>::empty());
    }
}

/// Empty batch: when no row is selected, a pass sends nothing and leaves
/// every row as it was.
pub proof fn lemma_nothing_selected(rows: Seq<TasksView>, delivered: Seq<bool>)
    requires
        forall|i: int| 0 <= i < rows.len() ==> !(#[trigger] rows[i]).status,
    ensures
        !has_selected_from(rows, 0),
        residual_of(rows, delivered) == rows,
    decreases rows.len(),
{
    if rows.len() > 0 {
        lemma_nothing_selected(rows.drop_last(), delivered);
        assert(rows.drop_last().push(rows.last()) =~= rows);
    }
}

proof fn lemma_all_delivered(rows: Seq<TasksView>, delivered: Seq<bool>)
    requires
        forall|i: int| 0 <= i < rows.len() ==> (#[trigger] rows[i]).status,
        forall|i: int| 0 <= i < rows.len() ==> #[trigger] delivered[i],
    ensures
        residual_of(rows, delivered) == Seq::<TasksView>::empty(),
    decreases rows.len(),
{
    if rows.len() > 0 {
        lemma_all_delivered(rows.drop_last(), delivered);
    }
}

/// Select all: after selecting every row, a pass whose sends all succeed
/// leaves nothing; after deselecting every row, a pass sends nothing and
/// leaves the rows as they are.
pub proof fn lemma_select_all_dispatch(rows: Seq<TasksView>, delivered: Seq<bool>)
    requires
        rows.len() == delivered.len(),
    ensures
        (forall|i: int| 0 <= i < delivered.len() ==> #[trigger] delivered[i]) ==> residual_of(
            with_status(rows, true),
            delivered,
        ) == Seq::<TasksView>::empty(),
        !has_selected_from(with_status(rows, false), 0),
        residual_of(with_status(rows, false), delivered) == with_status(rows, false),
{
    if forall|i: int| 0 <= i < delivered.len() ==> #[trigger] delivered[i] {
        lemma_all_delivered(with_status(rows, true), delivered);
    }
    lemma_nothing_selected(with_status(rows, false), delivered);
}

} // verus!
