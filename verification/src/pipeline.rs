//! The ingestion pipeline: from a fetched composite record to a stored row.
//!
//! One run fetches the account-wide summary for a day, one summary per
//! project named in it, bundles them into a [`SummariesAll`], and writes one
//! row keyed by the day. The write is an insert-or-overwrite, so running a
//! day again replaces its row instead of duplicating it. Only the first
//! dated bucket of the envelope is consumed; multi-day envelopes are not
//! supported.

use crate::ascii::{ascii_chars, string_from_ascii};
use crate::date::{compact_bytes, Date};
use crate::schema::{DetailView, Summaries, SummariesAll, SummariesData};
use crate::store::{row_for, spec_upsert, RowView, Store, StoredRow};
use vstd::prelude::*;
use vstd::string::StringSliceAdditionalSpecFns;

verus! {

/// The row that a composite record stores under `date`: the category lists
/// and grand total of the first dated bucket, or empty lists and a zero
/// total when the envelope carries no bucket at all.
pub open spec fn spec_row_of(date: Date, all: crate::schema::SummariesAllView) -> RowView {
    if all.summaries.data.len() == 0 {
        RowView {
            date,
            editors: Seq::empty(),
            langs: Seq::empty(),
            machine: Seq::empty(),
            projects: Seq::empty(),
            depends: Seq::empty(),
            grand_total_sec_milli: 0,
        }
    } else {
        let d0 = all.summaries.data[0];
        RowView {
            date,
            editors: d0.editors,
            langs: d0.languages,
            machine: d0.machines,
            projects: d0.projects,
            depends: d0.dependencies,
            grand_total_sec_milli: d0.grand_total.total_seconds_milli,
        }
    }
}

/// Normalizes a composite record into its stored row and writes it under
/// `log_dt`, inserting or overwriting that date's row.
pub fn register_wakatime(store: &mut Store, log_dt: &Date, summary: SummariesAll)
    requires
        old(store).wf(),
        log_dt.valid(),
    ensures
        final(store).wf(),
        final(store)@ == spec_upsert(old(store)@, spec_row_of(*log_dt, summary@)),
        row_for(final(store)@, *log_dt) == Some(spec_row_of(*log_dt, summary@)),
        forall|d: Date| d != *log_dt ==> row_for(final(store)@, d) == row_for(old(store)@, d),
{
    let ghost sv = summary@;
    let SummariesAll { summaries, projects: _ } = summary;
    let Summaries { data, start: _, end: _ } = summaries;
    let mut data = data;
    let row: StoredRow;
    if data.len() == 0 {
        let r = StoredRow {
            date: *log_dt,
            editors: Vec::new(),
            langs: Vec::new(),
            machine: Vec::new(),
            projects: Vec::new(),
            depends: Vec::new(),
            grand_total_sec_milli: 0,
        };
        proof {
            assert(r@.editors =~= Seq::<DetailView>::empty());
            assert(r@.langs =~= Seq::<DetailView>::empty());
            assert(r@.machine =~= Seq::<DetailView>::empty());
            assert(r@.projects =~= Seq::<DetailView>::empty());
            assert(r@.depends =~= Seq::<DetailView>::empty());
        }
        row = r;
    } else {
        let first = data.remove(0);
        let SummariesData {
            dependencies,
            editors,
            languages,
            machines,
            projects,
            grand_total,
            ..
        } = first;
        row = StoredRow {
            date: *log_dt,
            editors,
            langs: languages,
            machine: machines,
            projects,
            depends: dependencies,
            grand_total_sec_milli: grand_total.total_seconds_milli,
        };
    }
    assert(row@ == spec_row_of(*log_dt, sv));
    store.upsert(row);
}

/// Ingesting a date twice converges on the second payload: whatever was
/// stored for that date first, the store ends exactly as if only the
/// second ingestion had run. With the same payload twice, ingestion is
/// idempotent.
pub proof fn lemma_register_converges(
    rows: Seq<RowView>,
    date: Date,
    first: crate::schema::SummariesAllView,
    second: crate::schema::SummariesAllView,
)
    ensures
        spec_upsert(spec_upsert(rows, spec_row_of(date, first)), spec_row_of(date, second))
            == spec_upsert(rows, spec_row_of(date, second)),
{
    crate::store::lemma_upsert_converges(
        rows,
        spec_row_of(date, first),
        spec_row_of(date, second),
    );
}

/// The names of the projects listed in the first dated bucket, in order:
/// the projects whose own summaries an ingestion run goes on to fetch.
pub fn project_names(s: &Summaries) -> (r: Vec<String>)
    ensures
        r.deep_view() == spec_project_names(s@),
{
    let mut out: Vec<String> = Vec::new();
    proof {
        assert(out.deep_view() =~= Seq::<Seq<char>>::empty());
    }
    if s.data.len() == 0 {
        return out;
    }
    let first = &s.data[0];
    let mut j: usize = 0;
    while j < first.projects.len()
        invariant
            j <= first.projects.len(),
            s@.data.len() > 0,
            first.deep_view() == s@.data[0],
            out.deep_view() =~= s@.data[0].projects.take(j as int).map_values(
                |d: DetailView| d.name,
            ),
        decreases first.projects.len() - j,
    {
        let ghost predv = out.deep_view();
        out.push(first.projects[j].name.clone());
        proof {
            let ps = s@.data[0].projects;
            assert(out.deep_view() =~= predv.push(ps[j as int].name));
            assert(predv.push(ps[j as int].name) =~= ps.take(j as int + 1).map_values(
                |d: DetailView| d.name,
            ));
        }
        j += 1;
    }
    proof {
        assert(s@.data[0].projects.take(first.projects.len() as int) =~= s@.data[0].projects);
    }
    out
}

/// The project names of the first bucket, in order.
pub open spec fn spec_project_names(s: crate::schema::SummariesView) -> Seq<Seq<char>> {
    if s.data.len() == 0 {
        Seq::empty()
    } else {
        s.data[0].projects.map_values(|d: DetailView| d.name)
    }
}

/// The bytes of the archive file name: `res_YYYYMMDD.json` for a single
/// day, `res_YYYYMMDD-YYYYMMDD.json` for a range.
pub open spec fn archive_name_bytes(start: Date, end: Date) -> Seq<u8> {
    let prefix = seq![0x72u8, 0x65u8, 0x73u8, 0x5fu8];
    let suffix = seq![0x2eu8, 0x6au8, 0x73u8, 0x6fu8, 0x6eu8];
    if start == end {
        prefix + compact_bytes(start) + suffix
    } else {
        prefix + compact_bytes(start) + seq![0x2du8] + compact_bytes(end) + suffix
    }
}

/// The first position of `t` in `bytes`, or -1.
pub open spec fn find_first(bytes: Seq<u8>, t: u8) -> int
    decreases bytes.len(),
{
    if bytes.len() == 0 {
        -1
    } else if bytes[0] == t {
        0
    } else {
        let r = find_first(bytes.drop_first(), t);
        if r == -1 {
            -1
        } else {
            r + 1
        }
    }
}

/// The last position of `t` in `bytes`, or -1.
pub open spec fn find_last(bytes: Seq<u8>, t: u8) -> int
    decreases bytes.len(),
{
    if bytes.len() == 0 {
        -1
    } else if bytes[bytes.len() - 1] == t {
        bytes.len() - 1
    } else {
        find_last(bytes.drop_last(), t)
    }
}

/// What `find_first` finds: the position holds `t` and no earlier one
/// does; or nothing, and then no position holds `t`.
proof fn lemma_find_first_props(bytes: Seq<u8>, t: u8)
    ensures
        -1 <= find_first(bytes, t) < bytes.len(),
        find_first(bytes, t) >= 0 ==> bytes[find_first(bytes, t)] == t,
        forall|k: int|
            0 <= k < bytes.len() && bytes[k] == t ==> find_first(bytes, t) >= 0 && find_first(
                bytes,
                t,
            ) <= k,
    decreases bytes.len(),
{
    if bytes.len() > 0 && bytes[0] != t {
        lemma_find_first_props(bytes.drop_first(), t);
        assert forall|k: int|
            0 <= k < bytes.len() && bytes[k] == t implies find_first(bytes, t) >= 0 && find_first(
            bytes,
            t,
        ) <= k by {
            assert(bytes.drop_first()[k - 1] == bytes[k]);
        }
    }
}

/// What `find_last` finds: the position holds `t` and no later one does;
/// or nothing, and then no position holds `t`.
proof fn lemma_find_last_props(bytes: Seq<u8>, t: u8)
    ensures
        -1 <= find_last(bytes, t) < bytes.len(),
        find_last(bytes, t) >= 0 ==> bytes[find_last(bytes, t)] == t,
        forall|k: int|
            0 <= k < bytes.len() && bytes[k] == t ==> find_last(bytes, t) >= k,
    decreases bytes.len(),
{
    if bytes.len() > 0 && bytes[bytes.len() - 1] != t {
        lemma_find_last_props(bytes.drop_last(), t);
        assert forall|k: int|
            0 <= k < bytes.len() && bytes[k] == t implies find_last(bytes, t) >= k by {
            assert(bytes.drop_last()[k] == bytes[k]);
        }
    }
}

/// The last position of `t` in the slice, if `t` occurs.
fn find_last_byte(b: &[u8], t: u8) -> (r: Option<usize>)
    ensures
        match r {
            Some(i) => i < b@.len() && find_last(b@, t) == i && b@[i as int] == t,
            None => find_last(b@, t) == -1,
        },
{
    proof {
        lemma_find_last_props(b@, t);
    }
    let mut i: usize = b.len();
    while i > 0
        invariant
            i <= b@.len(),
            forall|k: int| i <= k < b@.len() ==> b@[k] != t,
            -1 <= find_last(b@, t) < b@.len(),
            find_last(b@, t) >= 0 ==> b@[find_last(b@, t)] == t,
            forall|k: int| 0 <= k < b@.len() && b@[k] == t ==> find_last(b@, t) >= k,
        decreases i,
    {
        i -= 1;
        if b[i] == t {
            return Some(i);
        }
    }
    None
}

/// The first position of `t` in the slice, if `t` occurs.
fn find_first_byte(b: &[u8], t: u8) -> (r: Option<usize>)
    ensures
        match r {
            Some(i) => i < b@.len() && find_first(b@, t) == i && b@[i as int] == t,
            None => find_first(b@, t) == -1,
        },
{
    proof {
        lemma_find_first_props(b@, t);
    }
    let mut i: usize = 0;
    while i < b.len()
        invariant
            i <= b@.len(),
            forall|k: int| 0 <= k < i ==> b@[k] != t,
            -1 <= find_first(b@, t) < b@.len(),
            find_first(b@, t) >= 0 ==> b@[find_first(b@, t)] == t,
            forall|k: int|
                0 <= k < b@.len() && b@[k] == t ==> find_first(b@, t) >= 0 && find_first(
                    b@,
                    t,
                ) <= k,
        decreases b@.len() - i,
    {
        if b[i] == t {
            proof {
                assert(b@[i as int] == t);
                assert(find_first(b@, t) >= 0 && find_first(b@, t) <= i as int);
                if find_first(b@, t) < i as int {
                    assert(b@[find_first(b@, t)] != t);
                    assert(false);
                }
            }
            return Some(i);
        }
        i += 1;
    }
    None
}

/// True when the file name carries a `json` extension: the text after its
/// last dot is exactly `json`.
pub open spec fn archive_shape(bytes: Seq<u8>) -> bool {
    let ld = find_last(bytes, 0x2e);
    ld >= 0 && bytes.skip(ld + 1) == seq![0x6au8, 0x73u8, 0x6fu8, 0x6eu8]
}

/// The date-bearing piece of an archive file name: what stands between the
/// last underscore (or the start) and the first dot.
pub open spec fn archive_stem(bytes: Seq<u8>) -> Seq<u8> {
    let fd = find_first(bytes, 0x2e);
    let stem = bytes.take(fd);
    let lu = find_last(stem, 0x5f);
    stem.skip(lu + 1)
}

impl Date {
    /// Reads the date out of an archive file name: for a name with a
    /// `json` extension, the `YYYYMMDD` piece between the last underscore
    /// and the first dot. Anything else is rejected.
    pub fn from_file_name(name: &str) -> (r: Option<Date>)
        ensures
            match r {
                Some(d) => archive_shape(name.spec_bytes()) && d.valid() && compact_bytes(d)
                    == archive_stem(name.spec_bytes()),
                None => !archive_shape(name.spec_bytes()) || forall|d: Date|
                    d.valid() ==> compact_bytes(d) != archive_stem(name.spec_bytes()),
            },
    {
        let b = name.as_bytes();
        let ld = match find_last_byte(b, 0x2e) {
            Some(ld) => ld,
            None => {
                return None;
            },
        };
        if !(b.len() - ld == 5 && b[ld + 1] == 0x6a && b[ld + 2] == 0x73 && b[ld + 3] == 0x6f
            && b[ld + 4] == 0x6e) {
            proof {
                if archive_shape(b@) {
                    assert(b@.skip(ld + 1).len() == 4);
                }
            }
            return None;
        }
        proof {
            assert(b@.skip(ld + 1) =~= seq![0x6au8, 0x73u8, 0x6fu8, 0x6eu8]);
        }
        let fd = match find_first_byte(b, 0x2e) {
            Some(fd) => fd,
            None => {
                proof {
                    lemma_find_first_props(b@, 0x2e);
                    assert(b@[ld as int] == 0x2e);
                    assert(false);
                }
                return None;
            },
        };
        let stem = &b[0..fd];
        let start = match find_last_byte(stem, 0x5f) {
            Some(lu) => lu + 1,
            None => 0,
        };
        if fd - start != 8 {
            proof {
                assert forall|d: Date| d.valid() implies compact_bytes(d) != archive_stem(
                    b@,
                ) by {
                    assert(archive_stem(b@).len() == fd - start);
                }
            }
            return None;
        }
        let piece = &b[start..fd];
        proof {
            assert(piece@ =~= archive_stem(b@));
        }
        Date::compact_from_bytes(piece)
    }
}

/// The name of the archival JSON file for a fetched range.
pub fn archive_file_name(start: &Date, end: &Date) -> (r: String)
    requires
        start.valid(),
        end.valid(),
    ensures
        r@ == ascii_chars(archive_name_bytes(*start, *end)),
{
    let mut out: Vec<u8> = Vec::new();
    out.push(0x72);
    out.push(0x65);
    out.push(0x73);
    out.push(0x5f);
    crate::ascii::push_four_digits(&mut out, start.year);
    crate::ascii::push_two_digits(&mut out, start.month);
    crate::ascii::push_two_digits(&mut out, start.day);
    if !(start.year == end.year && start.month == end.month && start.day == end.day) {
        out.push(0x2d);
        crate::ascii::push_four_digits(&mut out, end.year);
        crate::ascii::push_two_digits(&mut out, end.month);
        crate::ascii::push_two_digits(&mut out, end.day);
    }
    out.push(0x2e);
    out.push(0x6a);
    out.push(0x73);
    out.push(0x6f);
    out.push(0x6e);
    proof {
        assert(out@ =~= archive_name_bytes(*start, *end));
    }
    string_from_ascii(out)
}

} // verus!
