//! The date-keyed summary store.
//!
//! One row per calendar day, holding the normalized category lists and the
//! grand total of that day's summary. The calendar date is the natural key:
//! writing a day that is already present overwrites its row instead of
//! adding a second one, so ingestion is idempotent per date.

use crate::date::Date;
use crate::schema::{DetailView, SummariesDetail};
use vstd::prelude::*;

verus! {

/// One stored row: the decomposed shape of one day's summary.
pub struct StoredRow {
    pub date: Date,
    pub editors: Vec<SummariesDetail>,
    pub langs: Vec<SummariesDetail>,
    pub machine: Vec<SummariesDetail>,
    pub projects: Vec<SummariesDetail>,
    pub depends: Vec<SummariesDetail>,
    /// Grand total of the day, in thousandths of a second.
    pub grand_total_sec_milli: u64,
}

/// The mathematical value of a [`StoredRow`].
pub struct RowView {
    pub date: Date,
    pub editors: Seq<DetailView>,
    pub langs: Seq<DetailView>,
    pub machine: Seq<DetailView>,
    pub projects: Seq<DetailView>,
    pub depends: Seq<DetailView>,
    pub grand_total_sec_milli: nat,
}

impl View for StoredRow {
    type V = RowView;

    open spec fn view(&self) -> RowView {
        RowView {
            date: self.date,
            editors: self.editors.deep_view(),
            langs: self.langs.deep_view(),
            machine: self.machine.deep_view(),
            projects: self.projects.deep_view(),
            depends: self.depends.deep_view(),
            grand_total_sec_milli: self.grand_total_sec_milli as nat,
        }
    }
}

impl DeepView for StoredRow {
    type V = RowView;

    open spec fn deep_view(&self) -> RowView {
        self.view()
    }
}

/// The relational store: rows keyed by date.
pub struct Store {
    pub rows: Vec<StoredRow>,
}

impl View for Store {
    type V = Seq<RowView>;

    open spec fn view(&self) -> Seq<RowView> {
        self.rows.deep_view()
    }
}

/// The first index holding `date`, or -1 when no row does.
pub open spec fn find_date(rows: Seq<RowView>, date: Date) -> int
    decreases rows.len(),
{
    if rows.len() == 0 {
        -1
    } else if rows[0].date == date {
        0
    } else {
        let r = find_date(rows.drop_first(), date);
        if r == -1 {
            -1
        } else {
            r + 1
        }
    }
}

/// The row stored under `date`, if any.
pub open spec fn row_for(rows: Seq<RowView>, date: Date) -> Option<RowView> {
    let i = find_date(rows, date);
    if i >= 0 {
        Some(rows[i])
    } else {
        None
    }
}

/// Insert-or-overwrite, keyed by date: the row replaces the first row with
/// its date, or is appended when the date is new.
pub open spec fn spec_upsert(rows: Seq<RowView>, r: RowView) -> Seq<RowView> {
    let i = find_date(rows, r.date);
    if i >= 0 {
        rows.update(i, r)
    } else {
        rows.push(r)
    }
}

/// What `find_date` finds: a position in range, holding the date, with no
/// earlier row holding it; or nothing, and then no row holds the date.
pub proof fn lemma_find_date_props(rows: Seq<RowView>, date: Date)
    ensures
        -1 <= find_date(rows, date) < rows.len(),
        find_date(rows, date) >= 0 ==> rows[find_date(rows, date)].date == date,
        forall|k: int|
            0 <= k < rows.len() && rows[k].date == date ==> find_date(rows, date) >= 0
                && find_date(rows, date) <= k,
    decreases rows.len(),
{
    if rows.len() > 0 && rows[0].date != date {
        lemma_find_date_props(rows.drop_first(), date);
        assert forall|k: int|
            0 <= k < rows.len() && rows[k].date == date implies find_date(rows, date) >= 0
            && find_date(rows, date) <= k by {
            assert(rows.drop_first()[k - 1] == rows[k]);
        }
    }
}

/// The first index holding a date is what `find_date` returns.
proof fn lemma_find_date_at_first(rows: Seq<RowView>, i: int)
    requires
        0 <= i < rows.len(),
        forall|k: int| 0 <= k < i ==> rows[k].date != rows[i].date,
    ensures
        find_date(rows, rows[i].date) == i,
    decreases i,
{
    if i > 0 {
        lemma_find_date_at_first(rows.drop_first(), i - 1);
    }
}

/// Two row sequences with the same dates in the same order are searched
/// alike.
proof fn lemma_find_date_pointwise(rows1: Seq<RowView>, rows2: Seq<RowView>, date: Date)
    requires
        rows1.len() == rows2.len(),
        forall|k: int| 0 <= k < rows1.len() ==> rows1[k].date == rows2[k].date,
    ensures
        find_date(rows1, date) == find_date(rows2, date),
    decreases rows1.len(),
{
    if rows1.len() > 0 && rows1[0].date != date {
        lemma_find_date_pointwise(rows1.drop_first(), rows2.drop_first(), date);
    }
}

/// Appending a row changes only the search for dates not yet present.
proof fn lemma_find_date_push(rows: Seq<RowView>, r: RowView, date: Date)
    ensures
        find_date(rows.push(r), date) == if find_date(rows, date) >= 0 {
            find_date(rows, date)
        } else if r.date == date {
            rows.len() as int
        } else {
            -1
        },
    decreases rows.len(),
{
    if rows.len() == 0 {
        assert(rows.push(r)[0] == r);
        assert(rows.push(r).drop_first() =~= Seq::<RowView>::empty());
        assert(find_date(Seq::<RowView>::empty(), date) == -1);
    } else {
        assert(rows.push(r)[0] == rows[0]);
        assert(rows.push(r).drop_first() =~= rows.drop_first().push(r));
        lemma_find_date_push(rows.drop_first(), r, date);
    }
}

impl Store {
    /// At most one row per date, and every date is a real calendar day.
    pub open spec fn wf(self) -> bool {
        &&& forall|i: int, j: int| 0 <= i < j < self@.len() ==> self@[i].date != self@[j].date
        &&& forall|i: int| 0 <= i < self@.len() ==> (#[trigger] self@[i].date).valid()
    }

    /// An empty store.
    pub fn new() -> (r: Store)
        ensures
            r@ == Seq::<RowView>::empty(),
            r.wf(),
    {
        let rows: Vec<StoredRow> = Vec::new();
        let r = Store { rows };
        proof {
            assert(r@ =~= Seq::<RowView>::empty());
        }
        r
    }

    /// Number of stored rows.
    pub fn len(&self) -> (r: usize)
        ensures
            r == self@.len(),
    {
        self.rows.len()
    }

    /// Writes one day's row: an insert when the date is new, an overwrite of
    /// that date's row otherwise. Afterwards the store holds exactly this
    /// row under the row's date, and every other date is untouched.
    pub fn upsert(&mut self, row: StoredRow)
        requires
            old(self).wf(),
            row@.date.valid(),
        ensures
            final(self).wf(),
            final(self)@ == spec_upsert(old(self)@, row@),
            row_for(final(self)@, row@.date) == Some(row@),
            forall|d: Date| d != row@.date ==> row_for(final(self)@, d) == row_for(old(self)@, d),
    {
        let ghost r0 = self@;
        let date = row.date;
        let mut i: usize = 0;
        while i < self.rows.len()
            invariant
                i <= self.rows.len(),
                *self == *old(self),
                r0 == self@,
                date == row@.date,
                date.valid(),
                forall|x: int, y: int| 0 <= x < y < r0.len() ==> r0[x].date != r0[y].date,
                forall|k: int| 0 <= k < r0.len() ==> (#[trigger] r0[k].date).valid(),
                forall|k: int| 0 <= k < i ==> r0[k].date != date,
            decreases self.rows.len() - i,
        {
            if self.rows[i].date == date {
                self.rows.remove(i);
                self.rows.insert(i, row);
                proof {
                    let r1 = self@;
                    assert(r1 =~= r0.update(i as int, row@));
                    lemma_find_date_at_first(r0, i as int);
                    assert(forall|k: int| 0 <= k < r1.len() ==> r1[k].date == r0[k].date);
                    assert forall|x: int, y: int| 0 <= x < y < r1.len() implies r1[x].date
                        != r1[y].date by {
                        assert(r0[x].date != r0[y].date);
                    }
                    lemma_find_date_pointwise(r0, r1, date);
                    assert forall|d: Date| d != row@.date implies row_for(r1, d) == row_for(
                        r0,
                        d,
                    ) by {
                        lemma_find_date_pointwise(r0, r1, d);
                        lemma_find_date_props(r1, d);
                    }
                }
                return;
            }
            i += 1;
        }
        self.rows.push(row);
        proof {
            let r1 = self@;
            assert(r1 =~= r0.push(row@));
            lemma_find_date_props(r0, date);
            lemma_find_date_push(r0, row@, date);
            assert forall|d: Date| d != row@.date implies row_for(r1, d) == row_for(r0, d) by {
                lemma_find_date_push(r0, row@, d);
                lemma_find_date_props(r0, d);
                lemma_find_date_props(r1, d);
            }
        }
    }
}

/// At most one row exists per date: in a well-formed store, two positions
/// holding the same date are the same position.
pub proof fn lemma_date_keyed_uniqueness(s: Store, i: int, j: int)
    requires
        s.wf(),
        0 <= i < s@.len(),
        0 <= j < s@.len(),
        s@[i].date == s@[j].date,
    ensures
        i == j,
{
}

/// Upserting two rows for the same date, in either order of contents,
/// converges to the second write: the first is overwritten whole.
pub proof fn lemma_upsert_converges(rows: Seq<RowView>, r1: RowView, r2: RowView)
    requires
        r1.date == r2.date,
    ensures
        spec_upsert(spec_upsert(rows, r1), r2) == spec_upsert(rows, r2),
{
    let i = find_date(rows, r1.date);
    lemma_find_date_props(rows, r1.date);
    if i >= 0 {
        let mid = rows.update(i, r1);
        assert(forall|k: int| 0 <= k < mid.len() ==> mid[k].date == rows[k].date);
        lemma_find_date_pointwise(rows, mid, r2.date);
        assert(spec_upsert(mid, r2) =~= rows.update(i, r2));
    } else {
        let mid = rows.push(r1);
        lemma_find_date_push(rows, r1, r2.date);
        assert(find_date(mid, r2.date) == rows.len());
        assert(spec_upsert(mid, r2) =~= rows.push(r2));
    }
}

/// Ingesting the same row twice leaves exactly what one ingestion leaves.
pub proof fn lemma_upsert_idempotent(rows: Seq<RowView>, r: RowView)
    ensures
        spec_upsert(spec_upsert(rows, r), r) == spec_upsert(rows, r),
{
    lemma_upsert_converges(rows, r, r);
}

} // verus!
