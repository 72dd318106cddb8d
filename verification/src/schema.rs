//! The shape of a fetched time-tracking summary.
//!
//! A summary breaks one date range down into leaf statistics per category
//! (editors, languages, projects, ...). Payload fields that the remote
//! service may omit are filled with explicit defaults here, at the schema
//! boundary, so that nothing downstream ever meets an absent value: absent
//! lists become empty lists and an absent grand total counts zero seconds.
//!
//! Durations are carried as integer thousandths of a second rather than as
//! floating-point seconds, so that aggregation over stored rows is exact.

use vstd::prelude::*;

verus! {

/// One leaf statistic: how much time one item (an editor, a language, a
/// project, ...) accounts for.
pub struct SummariesDetail {
    pub digital: String,
    pub hours: i32,
    pub minutes: i32,
    pub seconds: i32,
    pub name: String,
    /// Fractional percent, in thousandths of a percent.
    pub percent_milli: u64,
    pub text: String,
    /// The authoritative duration, in thousandths of a second. The
    /// hour/minute/second fields above are only a human-readable
    /// decomposition of it.
    pub total_seconds_milli: u64,
    pub machine_name_id: Option<String>,
}

/// The mathematical value of a [`SummariesDetail`].
pub struct DetailView {
    pub digital: Seq<char>,
    pub hours: int,
    pub minutes: int,
    pub seconds: int,
    pub name: Seq<char>,
    pub percent_milli: nat,
    pub text: Seq<char>,
    pub total_seconds_milli: nat,
    pub machine_name_id: Option<Seq<char>>,
}

impl View for SummariesDetail {
    type V = DetailView;

    open spec fn view(&self) -> DetailView {
        DetailView {
            digital: self.digital@,
            hours: self.hours as int,
            minutes: self.minutes as int,
            seconds: self.seconds as int,
            name: self.name@,
            percent_milli: self.percent_milli as nat,
            text: self.text@,
            total_seconds_milli: self.total_seconds_milli as nat,
            machine_name_id: match self.machine_name_id {
                Some(s) => Some(s@),
                None => None,
            },
        }
    }
}

impl DeepView for SummariesDetail {
    type V = DetailView;

    open spec fn deep_view(&self) -> DetailView {
        self.view()
    }
}

/// The value of the default detail: empty texts, zero duration, and an
/// empty (but present) machine identifier.
pub open spec fn default_detail_view() -> DetailView {
    DetailView {
        digital: Seq::empty(),
        hours: 0,
        minutes: 0,
        seconds: 0,
        name: Seq::empty(),
        percent_milli: 0,
        text: Seq::empty(),
        total_seconds_milli: 0,
        machine_name_id: Some(Seq::empty()),
    }
}

impl Default for SummariesDetail {
    /// The placeholder detail used when a payload omits its grand total.
    fn default() -> (r: SummariesDetail)
        ensures
            r@ == default_detail_view(),
    {
        SummariesDetail {
            digital: String::new(),
            hours: 0,
            minutes: 0,
            seconds: 0,
            name: String::new(),
            percent_milli: 0,
            text: String::new(),
            total_seconds_milli: 0,
            machine_name_id: Some(String::new()),
        }
    }
}

/// The date range one summary bucket describes.
pub struct RangeData {
    pub date: String,
    pub start: String,
    pub end: String,
    pub text: String,
    pub timezone: Option<String>,
}

/// The mathematical value of a [`RangeData`].
pub struct RangeView {
    pub date: Seq<char>,
    pub start: Seq<char>,
    pub end: Seq<char>,
    pub text: Seq<char>,
    pub timezone: Option<Seq<char>>,
}

impl View for RangeData {
    type V = RangeView;

    open spec fn view(&self) -> RangeView {
        RangeView {
            date: self.date@,
            start: self.start@,
            end: self.end@,
            text: self.text@,
            timezone: match self.timezone {
                Some(s) => Some(s@),
                None => None,
            },
        }
    }
}

impl DeepView for RangeData {
    type V = RangeView;

    open spec fn deep_view(&self) -> RangeView {
        self.view()
    }
}

/// One dated bucket of a summary: the per-category leaf statistics, the
/// grand total, and the range descriptor.
pub struct SummariesData {
    pub branches: Vec<SummariesDetail>,
    pub entities: Vec<SummariesDetail>,
    pub categories: Vec<SummariesDetail>,
    pub dependencies: Vec<SummariesDetail>,
    pub editors: Vec<SummariesDetail>,
    pub languages: Vec<SummariesDetail>,
    pub machines: Vec<SummariesDetail>,
    pub operating_system: Vec<SummariesDetail>,
    pub projects: Vec<SummariesDetail>,
    pub grand_total: SummariesDetail,
    pub range: RangeData,
}

/// The mathematical value of a [`SummariesData`].
pub struct SummariesDataView {
    pub branches: Seq<DetailView>,
    pub entities: Seq<DetailView>,
    pub categories: Seq<DetailView>,
    pub dependencies: Seq<DetailView>,
    pub editors: Seq<DetailView>,
    pub languages: Seq<DetailView>,
    pub machines: Seq<DetailView>,
    pub operating_system: Seq<DetailView>,
    pub projects: Seq<DetailView>,
    pub grand_total: DetailView,
    pub range: RangeView,
}

impl View for SummariesData {
    type V = SummariesDataView;

    open spec fn view(&self) -> SummariesDataView {
        SummariesDataView {
            branches: self.branches.deep_view(),
            entities: self.entities.deep_view(),
            categories: self.categories.deep_view(),
            dependencies: self.dependencies.deep_view(),
            editors: self.editors.deep_view(),
            languages: self.languages.deep_view(),
            machines: self.machines.deep_view(),
            operating_system: self.operating_system.deep_view(),
            projects: self.projects.deep_view(),
            grand_total: self.grand_total@,
            range: self.range@,
        }
    }
}

impl DeepView for SummariesData {
    type V = SummariesDataView;

    open spec fn deep_view(&self) -> SummariesDataView {
        self.view()
    }
}

/// The list a payload carried, or the empty list when it carried none.
pub open spec fn opt_details_view(o: Option<Vec<SummariesDetail>>) -> Seq<DetailView> {
    match o {
        Some(v) => v.deep_view(),
        None => Seq::empty(),
    }
}

/// The grand total a payload carried, or the zero-duration default.
pub open spec fn opt_grand_total_view(o: Option<SummariesDetail>) -> DetailView {
    match o {
        Some(g) => g@,
        None => default_detail_view(),
    }
}

impl SummariesData {
    /// Assembles one summary bucket from a decoded payload, defaulting every
    /// list the payload omitted to the empty list and an omitted grand total
    /// to the zero-duration default. This is the only place defaults are
    /// applied; after it, no field is absent.
    pub fn from_parts(
        branches: Option<Vec<SummariesDetail>>,
        entities: Option<Vec<SummariesDetail>>,
        categories: Option<Vec<SummariesDetail>>,
        dependencies: Option<Vec<SummariesDetail>>,
        editors: Option<Vec<SummariesDetail>>,
        languages: Option<Vec<SummariesDetail>>,
        machines: Option<Vec<SummariesDetail>>,
        operating_system: Option<Vec<SummariesDetail>>,
        projects: Option<Vec<SummariesDetail>>,
        grand_total: Option<SummariesDetail>,
        range: RangeData,
    ) -> (r: SummariesData)
        ensures
            r@.branches == opt_details_view(branches),
            r@.entities == opt_details_view(entities),
            r@.categories == opt_details_view(categories),
            r@.dependencies == opt_details_view(dependencies),
            r@.editors == opt_details_view(editors),
            r@.languages == opt_details_view(languages),
            r@.machines == opt_details_view(machines),
            r@.operating_system == opt_details_view(operating_system),
            r@.projects == opt_details_view(projects),
            r@.grand_total == opt_grand_total_view(grand_total),
            r@.range == range@,
    {
        SummariesData {
            branches: unwrap_or_empty(branches),
            entities: unwrap_or_empty(entities),
            categories: unwrap_or_empty(categories),
            dependencies: unwrap_or_empty(dependencies),
            editors: unwrap_or_empty(editors),
            languages: unwrap_or_empty(languages),
            machines: unwrap_or_empty(machines),
            operating_system: unwrap_or_empty(operating_system),
            projects: unwrap_or_empty(projects),
            grand_total: match grand_total {
                Some(g) => g,
                None => SummariesDetail::default(),
            },
            range,
        }
    }
}

/// The carried list, or a fresh empty one.
fn unwrap_or_empty(o: Option<Vec<SummariesDetail>>) -> (r: Vec<SummariesDetail>)
    ensures
        r.deep_view() == opt_details_view(o),
{
    match o {
        Some(v) => v,
        None => {
            let r: Vec<SummariesDetail> = Vec::new();
            proof {
                assert(r.deep_view() =~= Seq::<DetailView>::empty());
            }
            r
        },
    }
}

/// A fetched envelope: the dated buckets plus the timestamps of the request.
pub struct Summaries {
    pub data: Vec<SummariesData>,
    pub start: String,
    pub end: String,
}

/// The mathematical value of a [`Summaries`].
pub struct SummariesView {
    pub data: Seq<SummariesDataView>,
    pub start: Seq<char>,
    pub end: Seq<char>,
}

impl View for Summaries {
    type V = SummariesView;

    open spec fn view(&self) -> SummariesView {
        SummariesView { data: self.data.deep_view(), start: self.start@, end: self.end@ }
    }
}

impl DeepView for Summaries {
    type V = SummariesView;

    open spec fn deep_view(&self) -> SummariesView {
        self.view()
    }
}

/// The composite record of one ingestion run: the account-wide summary plus
/// one summary per project, keyed by project name.
pub struct SummariesAll {
    pub summaries: Summaries,
    pub projects: Vec<(String, Summaries)>,
}

/// The mathematical value of a [`SummariesAll`].
pub struct SummariesAllView {
    pub summaries: SummariesView,
    pub projects: Seq<(Seq<char>, SummariesView)>,
}

impl View for SummariesAll {
    type V = SummariesAllView;

    open spec fn view(&self) -> SummariesAllView {
        SummariesAllView {
            summaries: self.summaries.deep_view(),
            projects: self.projects.deep_view(),
        }
    }
}

impl DeepView for SummariesAll {
    type V = SummariesAllView;

    open spec fn deep_view(&self) -> SummariesAllView {
        self.view()
    }
}

impl SummariesAll {
    /// Project names are unique keys of the per-project mapping.
    pub open spec fn wf(self) -> bool {
        forall|i: int, j: int|
            0 <= i < j < self@.projects.len() ==> self@.projects[i].0 != self@.projects[j].0
    }

    /// A composite with no per-project summaries yet.
    pub fn new(summaries: Summaries) -> (r: SummariesAll)
        ensures
            r@.summaries == summaries@,
            r@.projects == Seq::<(Seq<char>, SummariesView)>::empty(),
            r.wf(),
    {
        let projects: Vec<(String, Summaries)> = Vec::new();
        let r = SummariesAll { summaries, projects };
        proof {
            assert(r@.projects =~= Seq::<(Seq<char>, SummariesView)>::empty());
        }
        r
    }

    /// Records one project's summary under its name. A summary already
    /// recorded under the same name is replaced, so names stay unique keys.
    pub fn add_project(&mut self, name: String, summary: Summaries)
        requires
            old(self).wf(),
        ensures
            final(self).wf(),
            final(self)@.summaries == old(self)@.summaries,
            project_lookup(final(self)@.projects, name@) == Some(summary.deep_view()),
            forall|n: Seq<char>|
                n != name@ ==> project_lookup(final(self)@.projects, n) == project_lookup(
                    old(self)@.projects,
                    n,
                ),
    {
        let ghost p0 = self@.projects;
        let mut i: usize = 0;
        while i < self.projects.len()
            invariant
                i <= self.projects.len(),
                *self == *old(self),
                p0 == self@.projects,
                forall|x: int, y: int| 0 <= x < y < p0.len() ==> p0[x].0 != p0[y].0,
                forall|k: int| 0 <= k < i ==> p0[k].0 != name@,
            decreases self.projects.len() - i,
        {
            if string_eq(&self.projects[i].0, &name) {
                self.projects.remove(i);
                self.projects.insert(i, (name, summary));
                proof {
                    let p1 = self@.projects;
                    assert(p1 =~= p0.update(i as int, (name@, summary.deep_view())));
                    assert(forall|k: int| 0 <= k < p1.len() ==> p1[k].0 == p0[k].0);
                    assert forall|x: int, y: int| 0 <= x < y < p1.len() implies p1[x].0
                        != p1[y].0 by {
                        assert(p0[x].0 != p0[y].0);
                    }
                    lemma_project_lookup_at_first(p1, i as int);
                    assert forall|n: Seq<char>| n != name@ implies project_lookup(p1, n)
                        == project_lookup(p0, n) by {
                        lemma_project_lookup_keys_pointwise(p0, p1, n);
                    }
                }
                return;
            }
            i += 1;
        }
        self.projects.push((name, summary));
        proof {
            let p1 = self@.projects;
            assert(p1 =~= p0.push((name@, summary.deep_view())));
            lemma_project_lookup_none(p0, name@);
            lemma_project_lookup_push(p0, (name@, summary.deep_view()), name@);
            assert forall|n: Seq<char>| n != name@ implies project_lookup(p1, n)
                == project_lookup(p0, n) by {
                lemma_project_lookup_push(p0, (name@, summary.deep_view()), n);
            }
        }
    }
}

/// The lookup of the key at the first index holding it returns that entry.
proof fn lemma_project_lookup_at_first(projects: Seq<(Seq<char>, SummariesView)>, i: int)
    requires
        0 <= i < projects.len(),
        forall|k: int| 0 <= k < i ==> projects[k].0 != projects[i].0,
    ensures
        project_lookup(projects, projects[i].0) == Some(projects[i].1),
    decreases i,
{
    if i > 0 {
        lemma_project_lookup_at_first(projects.drop_first(), i - 1);
    }
}

/// Two mappings with the same keys in the same order, agreeing on every
/// entry keyed `n`, look `n` up to the same result.
proof fn lemma_project_lookup_keys_pointwise(
    p1: Seq<(Seq<char>, SummariesView)>,
    p2: Seq<(Seq<char>, SummariesView)>,
    n: Seq<char>,
)
    requires
        p1.len() == p2.len(),
        forall|k: int| 0 <= k < p1.len() ==> p1[k].0 == p2[k].0,
        forall|k: int| 0 <= k < p1.len() && p1[k].0 == n ==> p1[k].1 == p2[k].1,
    ensures
        project_lookup(p1, n) == project_lookup(p2, n),
    decreases p1.len(),
{
    if p1.len() > 0 && p1[0].0 != n {
        lemma_project_lookup_keys_pointwise(p1.drop_first(), p2.drop_first(), n);
    }
}

/// A key held by no entry looks up to nothing.
proof fn lemma_project_lookup_none(projects: Seq<(Seq<char>, SummariesView)>, n: Seq<char>)
    requires
        forall|k: int| 0 <= k < projects.len() ==> projects[k].0 != n,
    ensures
        project_lookup(projects, n) == None::<SummariesView>,
    decreases projects.len(),
{
    if projects.len() > 0 {
        lemma_project_lookup_none(projects.drop_first(), n);
    }
}

/// Appending an entry changes only the lookup of keys not yet present.
proof fn lemma_project_lookup_push(
    projects: Seq<(Seq<char>, SummariesView)>,
    entry: (Seq<char>, SummariesView),
    n: Seq<char>,
)
    ensures
        project_lookup(projects.push(entry), n) == match project_lookup(projects, n) {
            Some(v) => Some(v),
            None => if entry.0 == n {
                Some(entry.1)
            } else {
                None
            },
        },
    decreases projects.len(),
{
    if projects.len() == 0 {
        assert(projects.push(entry)[0] == entry);
        assert(projects.push(entry).drop_first() =~= Seq::<(Seq<char>, SummariesView)>::empty());
    } else {
        assert(projects.push(entry).drop_first() =~= projects.drop_first().push(entry));
        lemma_project_lookup_push(projects.drop_first(), entry, n);
    }
}

/// The summary recorded under `name`, if any (the first match).
pub open spec fn project_lookup(
    projects: Seq<(Seq<char>, SummariesView)>,
    name: Seq<char>,
) -> Option<SummariesView>
    decreases projects.len(),
{
    if projects.len() == 0 {
        None
    } else if projects[0].0 == name {
        Some(projects[0].1)
    } else {
        project_lookup(projects.drop_first(), name)
    }
}

/// String equality by characters.
pub fn string_eq(a: &String, b: &String) -> (r: bool)
    ensures
        r == (a@ == b@),
{
    (*a) == (*b)
}

} // verus!
