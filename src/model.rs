//! The recipient table: schema columns and recipient rows.

use vstd::prelude::*;

verus! {

/// One column of the schema. Index 0 of a loaded schema is the
/// synthetic "select all" column, which has no data field behind it.
#[derive(Clone, Debug, PartialEq, Eq)]
pub struct Header {
    pub name: String,
    /// Display width in layout units.
    pub width: u32,
    pub check: bool,
}

/// One recipient: three fixed fields, then every further column in order.
#[derive(Clone, Debug, PartialEq, Eq)]
pub struct Tasks {
    pub email: String,
    pub name: String,
    pub seq: i64,
    pub info: Vec<String>,
    /// Whether the row takes part in the next dispatch.
    pub status: bool,
}

/// A schema and its rows, as one import produced them.
#[derive(Clone, Debug, PartialEq, Eq)]
pub struct Table {
    pub headers: Vec<Header>,
    pub list: Vec<Tasks>,
}

pub struct HeaderView {
    pub name: Seq<char>,
    pub width: u32,
    pub check: bool,
}

pub struct TasksView {
    pub email: Seq<char>,
    pub name: Seq<char>,
    pub seq: i64,
    pub info: Seq<Seq<char>>,
    pub status: bool,
}

impl View for Header {
    type V = HeaderView;

    open spec fn view(&self) -> HeaderView {
        HeaderView { name: self.name@, width: self.width, check: self.check }
    }
}

impl View for Tasks {
    type V = TasksView;

    open spec fn view(&self) -> TasksView {
        TasksView {
            email: self.email@,
            name: self.name@,
            seq: self.seq,
            info: self.info@.map_values(|s: String| s@),
            status: self.status,
        }
    }
}

/// The views of a sequence of headers.
pub open spec fn headers_view(hs: Seq<Header>) -> Seq<HeaderView> {
    hs.map_values(|h: Header| h@)
}

/// The views of a sequence of rows.
pub open spec fn rows_view(rs: Seq<Tasks>) -> Seq<TasksView> {
    rs.map_values(|t: Tasks| t@)
}

/// How many `info` entries a row has under a schema of `n_headers` columns:
/// all columns but the select-all column and the three fixed fields.
pub open spec fn info_width(n_headers: nat) -> nat {
    if n_headers >= 4 {
        (n_headers - 4) as nat
    } else {
        0
    }
}

/// The same rows with the selection flag of each set to `enable`.
pub open spec fn with_status(rows: Seq<TasksView>, enable: bool) -> Seq<TasksView> {
    rows.map_values(|t: TasksView| TasksView { status: enable, ..t })
}

/// The same headers with the check flag of each set to `enable`.
pub open spec fn with_check(hs: Seq<HeaderView>, enable: bool) -> Seq<HeaderView> {
    hs.map_values(|h: HeaderView| HeaderView { check: enable, ..h })
}

impl Tasks {
    /// The `index`-th extra field, or the empty string past its end.
    pub fn at(&self, index: usize) -> (r: String)
        ensures
            index < self.info@.len() ==> r@ == self.info@[index as int]@,
            index >= self.info@.len() ==> r@ == Seq::<char>::empty(),
    {
        if index < self.info.len() {
            self.info[index].clone()
        } else {
            String::new()
        }
    }
}

impl Header {
    /// A copy with the same fields.
    pub fn duplicate(&self) -> (r: Header)
        ensures
            r@ == self@,
    {
        Header { name: self.name.clone(), width: self.width, check: self.check }
    }
}

/// Copies of the headers, field for field.
pub fn duplicate_headers(hs: &Vec<Header>) -> (r: Vec<Header>)
    ensures
        headers_view(r@) == headers_view(hs@),
{
    let mut r: Vec<Header> = Vec::new();
    let mut i: usize = 0;
    while i < hs.len()
        invariant
            i <= hs@.len(),
            r@.len() == i,
            forall|j: int| 0 <= j < i ==> (#[trigger] r@[j])@ == hs@[j]@,
        decreases hs@.len() - i,
    {
        r.push(hs[i].duplicate());
        i = i + 1;
    }
    assert(headers_view(r@) =~= headers_view(hs@));
    r
}

impl Table {
    pub open spec fn view_headers(&self) -> Seq<HeaderView> {
        headers_view(self.headers@)
    }

    pub open spec fn view_rows(&self) -> Seq<TasksView> {
        rows_view(self.list@)
    }

    /// Every row carries exactly as many extra fields as the schema has
    /// columns for them.
    pub open spec fn wf(&self) -> bool {
        forall|i: int|
            0 <= i < self.list@.len() ==> #[trigger] self.list@[i].info@.len() == info_width(
                self.headers@.len(),
            )
    }

    /// Checks that every row carries exactly as many extra fields as the
    /// schema has columns for them.
    pub fn is_aligned(&self) -> (r: bool)
        ensures
            r == self.wf(),
    {
        let n = self.headers.len();
        let width: usize = if n >= 4 {
            n - 4
        } else {
            0
        };
        let mut i: usize = 0;
        while i < self.list.len()
            invariant
                i <= self.list@.len(),
                width == info_width(self.headers@.len()),
                forall|j: int| 0 <= j < i ==> (#[trigger] self.list@[j]).info@.len() == width,
            decreases self.list@.len() - i,
        {
            if self.list[i].info.len() != width {
                return false;
            }
            i = i + 1;
        }
        true
    }

    /// A table with no columns and no rows.
    pub fn empty() -> (r: Table)
        ensures
            r.wf(),
            r.headers@.len() == 0,
            r.list@.len() == 0,
    {
        Table { headers: Vec::new(), list: Vec::new() }
    }

    /// Includes or excludes one row in the next dispatch.
    pub fn set_selected(&mut self, index: usize, enable: bool)
        requires
            index < old(self).list@.len(),
        ensures
            final(self).view_headers() == old(self).view_headers(),
            final(self).view_rows() == old(self).view_rows().update(
                index as int,
                (TasksView { status: enable, ..old(self).view_rows()[index as int] }),
            ),
            old(self).wf() ==> final(self).wf(),
    {
        let ghost before = self.view_rows();
        self.list[index].status = enable;
        assert(self.view_rows() =~= before.update(
            index as int,
            (TasksView { status: enable, ..before[index as int] }),
        ));
    }

    /// Includes or excludes every row, and checks or unchecks every column.
    pub fn select_all(&mut self, enable: bool)
        ensures
            final(self).view_rows() == with_status(old(self).view_rows(), enable),
            final(self).view_headers() == with_check(old(self).view_headers(), enable),
            old(self).wf() ==> final(self).wf(),
    {
        let ghost rows0 = self.view_rows();
        let ghost heads0 = self.view_headers();
        let ghost infos0 = self.list@.map_values(|t: Tasks| t.info@.len());
        let mut i: usize = 0;
        while i < self.list.len()
            invariant
                i <= self.list@.len(),
                self.list@.len() == rows0.len(),
                self.headers@ == old(self).headers@,
                forall|j: int|
                    0 <= j < i ==> #[trigger] rows_view(self.list@)[j] == (TasksView {
                        status: enable,
                        ..rows0[j]
                    }),
                forall|j: int| i <= j < rows0.len() ==> #[trigger] rows_view(self.list@)[j] == rows0[j],
                forall|j: int| 0 <= j < rows0.len() ==> #[trigger] self.list@[j].info@.len() == infos0[j],
            decreases self.list@.len() - i,
        {
            let ghost prev = self.list@;
            self.list[i].status = enable;
            assert(self.list@ =~= prev.update(i as int, self.list@[i as int]));
            assert(rows_view(prev)[i as int] == prev[i as int]@);
            assert forall|j: int| 0 <= j < rows0.len() implies #[trigger] rows_view(self.list@)[j]
                == (if j == i { TasksView { status: enable, ..rows0[j] } } else { rows_view(prev)[j] }) by {}
            i = i + 1;
        }
        assert(self.view_rows() =~= with_status(rows0, enable));
        let mut k: usize = 0;
        while k < self.headers.len()
            invariant
                k <= self.headers@.len(),
                self.headers@.len() == heads0.len(),
                self.view_rows() == with_status(rows0, enable),
                self.list@.len() == rows0.len(),
                forall|j: int| 0 <= j < rows0.len() ==> #[trigger] self.list@[j].info@.len() == infos0[j],
                forall|j: int|
                    0 <= j < k ==> #[trigger] headers_view(self.headers@)[j] == (HeaderView {
                        check: enable,
                        ..heads0[j]
                    }),
                forall|j: int| k <= j < heads0.len() ==> #[trigger] headers_view(self.headers@)[j] == heads0[j],
            decreases self.headers@.len() - k,
        {
            let ghost prev = self.headers@;
            self.headers[k].check = enable;
            assert(self.headers@ =~= prev.update(k as int, self.headers@[k as int]));
            assert(headers_view(prev)[k as int] == prev[k as int]@);
            assert forall|j: int| 0 <= j < heads0.len() implies #[trigger] headers_view(self.headers@)[j]
                == (if j == k { HeaderView { check: enable, ..heads0[j] } } else { headers_view(prev)[j] }) by {}
            k = k + 1;
        }
        assert(self.view_headers() =~= with_check(heads0, enable));
    }
}

} // verus!
