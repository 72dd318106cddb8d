//! Ranking queries over the stored rows.
//!
//! For a date range and a category (editors, languages or projects), the
//! query gathers every leaf entry of that category from the rows whose date
//! falls in the range, sums the durations per name, and returns the names
//! ordered by descending total. Filter policy, kept from the service this
//! store feeds: language rankings leave out the literal name `Other`, and
//! project rankings leave out `Unknown Project`; editor rankings are
//! unfiltered.
//!
//! A range with no stored rows yields an empty ranking, not an error; the
//! only query error is an aggregate total too large to represent.

use crate::date::Date;
use crate::schema::{string_eq, DetailView, SummariesDetail};
use crate::store::{RowView, Store};
use vstd::prelude::*;

verus! {

/// The closed set of rankable categories.
#[derive(Clone, Copy, PartialEq, Eq, Structural, Debug)]
pub enum ItemType {
    Editors,
    Langs,
    Projects,
}

/// Why a ranking query can fail.
#[derive(Clone, Copy, PartialEq, Eq, Structural, Debug)]
pub enum QueryError {
    /// Some name's summed duration exceeds what the result can carry.
    TotalOverflow,
}

/// One line of a ranking: a name and its summed duration. Divide the
/// duration by 3,600,000 to read it in hours.
#[derive(Debug)]
pub struct RankingItem {
    pub title: String,
    /// Summed duration for this title, in thousandths of a second.
    pub total_seconds_milli: u128,
}

/// One aggregation entry: a name and one duration attributed to it.
pub type Entry = (Seq<char>, nat);

/// The category selector, as it appears in a request path.
pub open spec fn spec_parse_item_type(s: Seq<char>) -> Option<ItemType> {
    if s == "editors"@ {
        Some(ItemType::Editors)
    } else if s == "languages"@ {
        Some(ItemType::Langs)
    } else if s == "projects"@ {
        Some(ItemType::Projects)
    } else {
        None
    }
}

/// The display text of a category selector.
pub open spec fn spec_item_type_text(t: ItemType) -> Seq<char> {
    match t {
        ItemType::Editors => "editors"@,
        ItemType::Langs => "languages"@,
        ItemType::Projects => "projects"@,
    }
}

impl ItemType {
    /// Reads a category selector; anything unrecognized is rejected.
    pub fn parse(s: &str) -> (r: Option<ItemType>)
        ensures
            r == spec_parse_item_type(s@),
    {
        let t = String::from_str(s);
        if t == String::from_str("editors") {
            Some(ItemType::Editors)
        } else if t == String::from_str("languages") {
            Some(ItemType::Langs)
        } else if t == String::from_str("projects") {
            Some(ItemType::Projects)
        } else {
            None
        }
    }

    /// The display text of this category.
    pub fn text(&self) -> (r: String)
        ensures
            r@ == spec_item_type_text(*self),
    {
        match self {
            ItemType::Editors => String::from_str("editors"),
            ItemType::Langs => String::from_str("languages"),
            ItemType::Projects => String::from_str("projects"),
        }
    }
}

/// The category selector as the ranking service's path spells it.
pub open spec fn spec_parse_path_segment(s: Seq<char>) -> Option<ItemType> {
    if s == "editors"@ {
        Some(ItemType::Editors)
    } else if s == "langs"@ {
        Some(ItemType::Langs)
    } else if s == "projects"@ {
        Some(ItemType::Projects)
    } else {
        None
    }
}

/// The path segment of a category in the ranking service's routes.
pub open spec fn spec_item_type_path_segment(t: ItemType) -> Seq<char> {
    match t {
        ItemType::Editors => "editors"@,
        ItemType::Langs => "langs"@,
        ItemType::Projects => "projects"@,
    }
}

impl ItemType {
    /// Validates a ranking-route path segment; anything unrecognized is
    /// rejected rather than treated as an unknown route.
    pub fn from_path_segment(s: &str) -> (r: Option<ItemType>)
        ensures
            r == spec_parse_path_segment(s@),
    {
        let t = String::from_str(s);
        if t == String::from_str("editors") {
            Some(ItemType::Editors)
        } else if t == String::from_str("langs") {
            Some(ItemType::Langs)
        } else if t == String::from_str("projects") {
            Some(ItemType::Projects)
        } else {
            None
        }
    }

    /// The path segment under which this category's ranking is served.
    pub fn path_segment(&self) -> (r: String)
        ensures
            r@ == spec_item_type_path_segment(*self),
    {
        match self {
            ItemType::Editors => String::from_str("editors"),
            ItemType::Langs => String::from_str("langs"),
            ItemType::Projects => String::from_str("projects"),
        }
    }
}

/// Names excluded from a category's ranking.
pub open spec fn excluded(ty: ItemType, name: Seq<char>) -> bool {
    ||| (ty == ItemType::Langs && name == "Other"@)
    ||| (ty == ItemType::Projects && name == "Unknown Project"@)
}

/// The leaf entries a row contributes to a category.
pub open spec fn category_of(row: RowView, ty: ItemType) -> Seq<DetailView> {
    match ty {
        ItemType::Editors => row.editors,
        ItemType::Langs => row.langs,
        ItemType::Projects => row.projects,
    }
}

/// True when the row's date lies in the inclusive range.
pub open spec fn in_range(row: RowView, from: Date, to: Date) -> bool {
    from.key() <= row.date.key() && row.date.key() <= to.key()
}

/// The aggregation entry of one leaf statistic.
pub open spec fn entry_of(d: DetailView) -> Entry {
    (d.name, d.total_seconds_milli)
}

/// The aggregation entries of a category list, in order, with the
/// category's excluded names left out.
pub open spec fn entries_of(details: Seq<DetailView>, ty: ItemType) -> Seq<Entry>
    decreases details.len(),
{
    if details.len() == 0 {
        Seq::empty()
    } else {
        let rest = entries_of(details.drop_first(), ty);
        if excluded(ty, details[0].name) {
            rest
        } else {
            seq![entry_of(details[0])] + rest
        }
    }
}

/// Every aggregation entry the rows in range contribute to the category,
/// row by row in storage order.
pub open spec fn range_entries(rows: Seq<RowView>, ty: ItemType, from: Date, to: Date) -> Seq<
    Entry,
>
    decreases rows.len(),
{
    if rows.len() == 0 {
        Seq::empty()
    } else {
        let head = if in_range(rows[0], from, to) {
            entries_of(category_of(rows[0], ty), ty)
        } else {
            Seq::empty()
        };
        head + range_entries(rows.drop_first(), ty, from, to)
    }
}

/// Some entry carries this name.
pub open spec fn appears(es: Seq<Entry>, n: Seq<char>) -> bool {
    exists|k: int| 0 <= k < es.len() && es[k].0 == n
}

/// The summed duration attributed to `n` across the entries.
pub open spec fn total_for(es: Seq<Entry>, n: Seq<char>) -> int
    decreases es.len(),
{
    if es.len() == 0 {
        0
    } else {
        (if es[0].0 == n {
            es[0].1 as int
        } else {
            0
        }) + total_for(es.drop_first(), n)
    }
}

/// A summed duration is never negative.
pub proof fn lemma_total_for_nonneg(es: Seq<Entry>, n: Seq<char>)
    ensures
        total_for(es, n) >= 0,
    decreases es.len(),
{
    if es.len() > 0 {
        lemma_total_for_nonneg(es.drop_first(), n);
    }
}

/// Sums split over concatenation.
pub proof fn lemma_total_for_concat(a: Seq<Entry>, b: Seq<Entry>, n: Seq<char>)
    ensures
        total_for(a + b, n) == total_for(a, n) + total_for(b, n),
    decreases a.len(),
{
    if a.len() == 0 {
        assert(a + b =~= b);
    } else {
        assert((a + b).drop_first() =~= a.drop_first() + b);
        assert((a + b)[0] == a[0]);
        lemma_total_for_concat(a.drop_first(), b, n);
    }
}

/// The sum over one entry.
pub proof fn lemma_total_for_singleton(e: Entry, n: Seq<char>)
    ensures
        total_for(seq![e], n) == if e.0 == n {
            e.1 as int
        } else {
            0
        },
{
    assert(seq![e].drop_first() =~= Seq::<Entry>::empty());
    assert(total_for(Seq::<Entry>::empty(), n) == 0);
}

/// A name carried by no entry sums to zero.
pub proof fn lemma_total_for_absent(es: Seq<Entry>, n: Seq<char>)
    requires
        !appears(es, n),
    ensures
        total_for(es, n) == 0,
    decreases es.len(),
{
    if es.len() > 0 {
        assert(!appears(es.drop_first(), n)) by {
            if appears(es.drop_first(), n) {
                let k = choose|k: int|
                    0 <= k < es.drop_first().len() && es.drop_first()[k].0 == n;
                assert(es[k + 1].0 == n);
            }
        }
        lemma_total_for_absent(es.drop_first(), n);
    }
}

/// Presence in a concatenation is presence in either part.
pub proof fn lemma_appears_concat(a: Seq<Entry>, b: Seq<Entry>, n: Seq<char>)
    ensures
        appears(a + b, n) <==> (appears(a, n) || appears(b, n)),
{
    if appears(a + b, n) {
        let k = choose|k: int| 0 <= k < (a + b).len() && (a + b)[k].0 == n;
        if k < a.len() {
            assert(a[k].0 == n);
        } else {
            assert(b[k - a.len()].0 == n);
        }
    }
    if appears(a, n) {
        let k = choose|k: int| 0 <= k < a.len() && a[k].0 == n;
        assert((a + b)[k].0 == n);
    }
    if appears(b, n) {
        let k = choose|k: int| 0 <= k < b.len() && b[k].0 == n;
        assert((a + b)[a.len() + k].0 == n);
    }
}

/// Category entries split over concatenation of the category lists.
proof fn lemma_entries_of_concat(a: Seq<DetailView>, b: Seq<DetailView>, ty: ItemType)
    ensures
        entries_of(a + b, ty) == entries_of(a, ty) + entries_of(b, ty),
    decreases a.len(),
{
    if a.len() == 0 {
        assert(a + b =~= b);
        assert(entries_of(a, ty) + entries_of(b, ty) =~= entries_of(b, ty));
    } else {
        assert((a + b).drop_first() =~= a.drop_first() + b);
        assert((a + b)[0] == a[0]);
        lemma_entries_of_concat(a.drop_first(), b, ty);
        if !excluded(ty, a[0].name) {
            assert(seq![entry_of(a[0])] + (entries_of(a.drop_first(), ty) + entries_of(b, ty))
                =~= (seq![entry_of(a[0])] + entries_of(a.drop_first(), ty)) + entries_of(
                b,
                ty,
            ));
        }
    }
}

/// The entries of a one-element category list.
proof fn lemma_entries_of_singleton(d: DetailView, ty: ItemType)
    ensures
        entries_of(seq![d], ty) == if excluded(ty, d.name) {
            Seq::<Entry>::empty()
        } else {
            seq![entry_of(d)]
        },
{
    assert(seq![d].drop_first() =~= Seq::<DetailView>::empty());
    assert(entries_of(Seq::<DetailView>::empty(), ty) == Seq::<Entry>::empty());
    if !excluded(ty, d.name) {
        assert(seq![entry_of(d)] + Seq::<Entry>::empty() =~= seq![entry_of(d)]);
    }
}

/// Range entries split over concatenation of the row sequences.
proof fn lemma_range_entries_concat(
    a: Seq<RowView>,
    b: Seq<RowView>,
    ty: ItemType,
    from: Date,
    to: Date,
)
    ensures
        range_entries(a + b, ty, from, to) == range_entries(a, ty, from, to) + range_entries(
            b,
            ty,
            from,
            to,
        ),
    decreases a.len(),
{
    if a.len() == 0 {
        assert(a + b =~= b);
        assert(range_entries(a, ty, from, to) + range_entries(b, ty, from, to) =~= range_entries(
            b,
            ty,
            from,
            to,
        ));
    } else {
        assert((a + b).drop_first() =~= a.drop_first() + b);
        assert((a + b)[0] == a[0]);
        lemma_range_entries_concat(a.drop_first(), b, ty, from, to);
        let head = if in_range(a[0], from, to) {
            entries_of(category_of(a[0], ty), ty)
        } else {
            Seq::<Entry>::empty()
        };
        assert(head + (range_entries(a.drop_first(), ty, from, to) + range_entries(
            b,
            ty,
            from,
            to,
        )) =~= (head + range_entries(a.drop_first(), ty, from, to)) + range_entries(
            b,
            ty,
            from,
            to,
        ));
    }
}

/// The entries of a one-row sequence.
proof fn lemma_range_entries_singleton(row: RowView, ty: ItemType, from: Date, to: Date)
    ensures
        range_entries(seq![row], ty, from, to) == if in_range(row, from, to) {
            entries_of(category_of(row, ty), ty)
        } else {
            Seq::<Entry>::empty()
        },
{
    assert(seq![row].drop_first() =~= Seq::<RowView>::empty());
    assert(range_entries(Seq::<RowView>::empty(), ty, from, to) == Seq::<Entry>::empty());
    let head = if in_range(row, from, to) {
        entries_of(category_of(row, ty), ty)
    } else {
        Seq::<Entry>::empty()
    };
    assert(head + Seq::<Entry>::empty() =~= head);
}

/// Adding one entry for a name already grouped raises exactly that line's
/// sum by the entry's duration.
proof fn lemma_grouped_update(
    g0: Seq<RankingItem>,
    g1: Seq<RankingItem>,
    pre: Seq<Entry>,
    e: Entry,
    k: int,
)
    requires
        grouped_ok(g0, pre),
        0 <= k < g0.len(),
        g0[k].title@ == e.0,
        g1.len() == g0.len(),
        forall|m: int| 0 <= m < g1.len() && m != k ==> g1[m] == g0[m],
        g1[k].title@ == g0[k].title@,
        g1[k].total_seconds_milli == g0[k].total_seconds_milli + e.1,
    ensures
        grouped_ok(g1, pre + seq![e]),
{
    let es2 = pre + seq![e];
    assert(forall|m: int| 0 <= m < g1.len() ==> g1[m].title@ == g0[m].title@);
    assert forall|m: int| 0 <= m < g1.len() implies appears(es2, (#[trigger] g1[m]).title@) by {
        lemma_appears_concat(pre, seq![e], g1[m].title@);
    }
    assert forall|m: int|
        0 <= m < g1.len() implies (#[trigger] g1[m]).total_seconds_milli == total_for(
        es2,
        g1[m].title@,
    ) by {
        lemma_total_for_concat(pre, seq![e], g1[m].title@);
        lemma_total_for_singleton(e, g1[m].title@);
        if m != k {
            assert(g0[m].title@ != g0[k].title@);
        }
    }
    assert forall|n: Seq<char>| #[trigger] appears(es2, n) implies exists|kk: int|
        0 <= kk < g1.len() && g1[kk].title@ == n by {
        lemma_appears_concat(pre, seq![e], n);
        if appears(pre, n) {
            let kk = choose|kk: int| 0 <= kk < g0.len() && g0[kk].title@ == n;
            assert(g1[kk].title@ == n);
        } else {
            let k2 = choose|k2: int| 0 <= k2 < seq![e].len() && seq![e][k2].0 == n;
            assert(k2 == 0);
            assert(g1[k].title@ == n);
        }
    }
}

/// Adding one entry for a name not yet grouped appends a line carrying
/// exactly that entry's duration.
proof fn lemma_grouped_push(g0: Seq<RankingItem>, g1: Seq<RankingItem>, pre: Seq<Entry>, e: Entry)
    requires
        grouped_ok(g0, pre),
        forall|m: int| 0 <= m < g0.len() ==> g0[m].title@ != e.0,
        g1.len() == g0.len() + 1,
        forall|m: int| 0 <= m < g0.len() ==> g1[m] == g0[m],
        g1[g0.len() as int].title@ == e.0,
        g1[g0.len() as int].total_seconds_milli == e.1,
    ensures
        grouped_ok(g1, pre + seq![e]),
{
    let es2 = pre + seq![e];
    let last = g0.len() as int;
    assert(!appears(pre, e.0)) by {
        if appears(pre, e.0) {
            let kk = choose|kk: int| 0 <= kk < g0.len() && g0[kk].title@ == e.0;
        }
    }
    lemma_total_for_absent(pre, e.0);
    assert(seq![e][0] == e);
    assert forall|m: int| 0 <= m < g1.len() implies appears(es2, (#[trigger] g1[m]).title@) by {
        lemma_appears_concat(pre, seq![e], g1[m].title@);
        if m == last {
            assert(appears(seq![e], e.0));
        }
    }
    assert forall|m: int|
        0 <= m < g1.len() implies (#[trigger] g1[m]).total_seconds_milli == total_for(
        es2,
        g1[m].title@,
    ) by {
        lemma_total_for_concat(pre, seq![e], g1[m].title@);
        lemma_total_for_singleton(e, g1[m].title@);
    }
    assert forall|n: Seq<char>| #[trigger] appears(es2, n) implies exists|kk: int|
        0 <= kk < g1.len() && g1[kk].title@ == n by {
        lemma_appears_concat(pre, seq![e], n);
        if appears(pre, n) {
            let kk = choose|kk: int| 0 <= kk < g0.len() && g0[kk].title@ == n;
            assert(g1[kk].title@ == n);
        } else {
            let k2 = choose|k2: int| 0 <= k2 < seq![e].len() && seq![e][k2].0 == n;
            assert(k2 == 0);
            assert(g1[last].title@ == n);
        }
    }
}

/// When one more entry would push a grouped sum past what the result can
/// carry, the full aggregation for that name is past it too.
proof fn lemma_overflow_witness(
    rows: Seq<RowView>,
    ty: ItemType,
    from: Date,
    to: Date,
    i: int,
    j: int,
    cur: int,
)
    requires
        0 <= i < rows.len(),
        in_range(rows[i], from, to),
        0 <= j < category_of(rows[i], ty).len(),
        !excluded(ty, category_of(rows[i], ty)[j].name),
        cur == total_for(
            range_entries(rows.take(i), ty, from, to) + entries_of(
                category_of(rows[i], ty).take(j),
                ty,
            ),
            category_of(rows[i], ty)[j].name,
        ),
        cur + category_of(rows[i], ty)[j].total_seconds_milli > u128::MAX,
    ensures
        exists|n: Seq<char>|
            #[trigger] appears(range_entries(rows, ty, from, to), n) && total_for(
                range_entries(rows, ty, from, to),
                n,
            ) > u128::MAX,
{
    let cd = category_of(rows[i], ty);
    let e = entry_of(cd[j]);
    let n = e.0;
    let ess = range_entries(rows.take(i), ty, from, to);
    let xj = entries_of(cd.take(j), ty);
    let pre = ess + xj;
    let a2 = rows.take(i) + seq![rows[i]];
    assert(rows =~= a2 + rows.skip(i + 1));
    lemma_range_entries_concat(a2, rows.skip(i + 1), ty, from, to);
    lemma_range_entries_concat(rows.take(i), seq![rows[i]], ty, from, to);
    lemma_range_entries_singleton(rows[i], ty, from, to);
    let head = entries_of(cd, ty);
    let rest = range_entries(rows.skip(i + 1), ty, from, to);
    let es_full = range_entries(rows, ty, from, to);
    assert(es_full == (ess + head) + rest);
    let c2 = cd.take(j) + seq![cd[j]];
    assert(cd =~= c2 + cd.skip(j + 1));
    lemma_entries_of_concat(c2, cd.skip(j + 1), ty);
    lemma_entries_of_concat(cd.take(j), seq![cd[j]], ty);
    lemma_entries_of_singleton(cd[j], ty);
    let eskip = entries_of(cd.skip(j + 1), ty);
    assert(head == (xj + seq![e]) + eskip);
    let post = eskip + rest;
    assert(es_full =~= (pre + seq![e]) + post);
    lemma_total_for_concat(pre + seq![e], post, n);
    lemma_total_for_concat(pre, seq![e], n);
    lemma_total_for_singleton(e, n);
    lemma_total_for_nonneg(post, n);
    assert(total_for(es_full, n) > u128::MAX);
    assert((pre + seq![e])[pre.len() as int] == e);
    assert(appears(pre + seq![e], n));
    lemma_appears_concat(pre + seq![e], post, n);
    assert(appears(es_full, n));
}

/// The grouped lines agree with the aggregation entries: distinct names,
/// each carrying the exact sum of its entries, and every appearing name
/// listed.
pub open spec fn grouped_ok(g: Seq<RankingItem>, es: Seq<Entry>) -> bool {
    &&& forall|x: int, y: int| 0 <= x < y < g.len() ==> g[x].title@ != g[y].title@
    &&& forall|k: int| 0 <= k < g.len() ==> appears(es, (#[trigger] g[k]).title@)
    &&& forall|k: int|
        0 <= k < g.len() ==> (#[trigger] g[k]).total_seconds_milli == total_for(es, g[k].title@)
    &&& forall|n: Seq<char>|
        #[trigger] appears(es, n) ==> exists|k: int| 0 <= k < g.len() && g[k].title@ == n
}

/// True when the category's ranking leaves this name out.
fn is_excluded(ty: ItemType, name: &String) -> (r: bool)
    ensures
        r == excluded(ty, name@),
{
    match ty {
        ItemType::Editors => false,
        ItemType::Langs => (*name) == String::from_str("Other"),
        ItemType::Projects => (*name) == String::from_str("Unknown Project"),
    }
}

/// The position of the line carrying `name`, if one does.
fn find_title(g: &Vec<RankingItem>, name: &String) -> (r: Option<usize>)
    ensures
        match r {
            Some(k) => k < g@.len() && g@[k as int].title@ == name@,
            None => forall|m: int| 0 <= m < g@.len() ==> g@[m].title@ != name@,
        },
{
    let mut t: usize = 0;
    while t < g.len()
        invariant
            t <= g.len(),
            forall|m: int| 0 <= m < t ==> g@[m].title@ != name@,
        decreases g.len() - t,
    {
        if string_eq(&g[t].title, name) {
            return Some(t);
        }
        t += 1;
    }
    None
}

/// Groups the range's aggregation entries by name, summing durations, in
/// first-seen order. Fails only when some name's sum cannot be carried.
fn group_range(store: &Store, ty: ItemType, from: &Date, to: &Date) -> (r: Result<
    Vec<RankingItem>,
    QueryError,
>)
    requires
        store.wf(),
        from.valid(),
        to.valid(),
    ensures
        match r {
            Ok(g) => grouped_ok(g@, range_entries(store@, ty, *from, *to)),
            Err(e) => {
                &&& e == QueryError::TotalOverflow
                &&& exists|n: Seq<char>|
                    #[trigger] appears(range_entries(store@, ty, *from, *to), n) && total_for(
                        range_entries(store@, ty, *from, *to),
                        n,
                    ) > u128::MAX
            },
        },
{
    let mut groups: Vec<RankingItem> = Vec::new();
    proof {
        assert(store@.take(0) =~= Seq::<RowView>::empty());
    }
    let mut i: usize = 0;
    while i < store.rows.len()
        invariant
            i <= store.rows.len(),
            store.wf(),
            from.valid(),
            to.valid(),
            grouped_ok(groups@, range_entries(store@.take(i as int), ty, *from, *to)),
        decreases store.rows.len() - i,
    {
        let ghost ess = range_entries(store@.take(i as int), ty, *from, *to);
        let row = &store.rows[i];
        proof {
            assert(row.deep_view() == store@[i as int]);
        }
        let in_rng = from.le(&row.date) && row.date.le(to);
        proof {
            assert(store@.take(i as int + 1) =~= store@.take(i as int) + seq![store@[i as int]]);
            lemma_range_entries_concat(
                store@.take(i as int),
                seq![store@[i as int]],
                ty,
                *from,
                *to,
            );
            lemma_range_entries_singleton(store@[i as int], ty, *from, *to);
        }
        if in_rng {
            let cat: &Vec<SummariesDetail> = match ty {
                ItemType::Editors => &row.editors,
                ItemType::Langs => &row.langs,
                ItemType::Projects => &row.projects,
            };
            proof {
                assert(cat.deep_view() == category_of(store@[i as int], ty));
                assert(cat.deep_view().take(0) =~= Seq::<DetailView>::empty());
            }
            let mut j: usize = 0;
            while j < cat.len()
                invariant
                    j <= cat.len(),
                    store.wf(),
                    from.valid(),
                    to.valid(),
                    i < store.rows.len(),
                    cat.deep_view() == category_of(store@[i as int], ty),
                    in_range(store@[i as int], *from, *to),
                    ess == range_entries(store@.take(i as int), ty, *from, *to),
                    grouped_ok(groups@, ess + entries_of(cat.deep_view().take(j as int), ty)),
                decreases cat.len() - j,
            {
                let ghost cd = cat.deep_view();
                let ghost pre = ess + entries_of(cd.take(j as int), ty);
                let d = &cat[j];
                proof {
                    assert(d.deep_view() == cd[j as int]);
                    assert(cd.take(j as int + 1) =~= cd.take(j as int) + seq![cd[j as int]]);
                    lemma_entries_of_concat(cd.take(j as int), seq![cd[j as int]], ty);
                    lemma_entries_of_singleton(cd[j as int], ty);
                }
                if !is_excluded(ty, &d.name) {
                    let v: u64 = d.total_seconds_milli;
                    let ghost e: Entry = entry_of(cd[j as int]);
                    let ghost pre2 = ess + entries_of(cd.take(j as int + 1), ty);
                    proof {
                        assert(pre2 =~= pre + seq![e]);
                        assert(e.0 == d.name@ && e.1 == v as nat);
                    }
                    match find_title(&groups, &d.name) {
                        Some(k) => {
                            let cur = groups[k].total_seconds_milli;
                            let add = v as u128;
                            if cur > u128::MAX - add {
                                proof {
                                    lemma_overflow_witness(
                                        store@,
                                        ty,
                                        *from,
                                        *to,
                                        i as int,
                                        j as int,
                                        cur as int,
                                    );
                                }
                                return Err(QueryError::TotalOverflow);
                            }
                            let ghost g0 = groups@;
                            let mut item = groups.remove(k);
                            item.total_seconds_milli = cur + add;
                            groups.insert(k, item);
                            proof {
                                let g1 = groups@;
                                assert(g1.len() == g0.len());
                                assert(forall|m: int|
                                    0 <= m < g1.len() && m != k ==> g1[m] == g0[m]);
                                assert(g1[k as int].title@ == g0[k as int].title@);
                                assert(g1[k as int].total_seconds_milli == g0[
                                    k as int
                                ].total_seconds_milli + e.1);
                                lemma_grouped_update(g0, g1, pre, e, k as int);
                            }
                        },
                        None => {
                            let ghost g0 = groups@;
                            groups.push(
                                RankingItem {
                                    title: d.name.clone(),
                                    total_seconds_milli: v as u128,
                                },
                            );
                            proof {
                                lemma_grouped_push(g0, groups@, pre, e);
                            }
                        },
                    }
                } else {
                    proof {
                        assert(ess + entries_of(cd.take(j as int + 1), ty) =~= pre);
                    }
                }
                j += 1;
            }
            proof {
                assert(cat.deep_view().take(cat.len() as int) =~= cat.deep_view());
                assert(range_entries(store@.take(i as int + 1), ty, *from, *to) == ess
                    + entries_of(cat.deep_view(), ty));
            }
        } else {
            proof {
                assert(ess + Seq::<Entry>::empty() =~= ess);
                assert(range_entries(store@.take(i as int + 1), ty, *from, *to) == ess);
            }
        }
        i += 1;
    }
    proof {
        assert(store@.take(store.rows.len() as int) =~= store@);
    }
    Ok(groups)
}

/// Some line carries this title.
pub open spec fn has_title(v: Seq<RankingItem>, n: Seq<char>) -> bool {
    exists|k: int| 0 <= k < v.len() && v[k].title@ == n
}

/// The line occurs in `v0`.
pub open spec fn is_line_of(x: RankingItem, v0: Seq<RankingItem>) -> bool {
    exists|m: int| 0 <= m < v0.len() && x == v0[m]
}

/// Every line of `v` is a line of `v0`.
pub open spec fn lines_from(v: Seq<RankingItem>, v0: Seq<RankingItem>) -> bool {
    forall|k: int| 0 <= k < v.len() ==> is_line_of(#[trigger] v[k], v0)
}

/// Orders ranking lines by descending summed duration. Lines with equal
/// sums keep their first-seen order relative to nothing in particular; the
/// contract promises only the descending order.
fn sort_ranking(items: Vec<RankingItem>) -> (r: Vec<RankingItem>)
    requires
        forall|x: int, y: int| 0 <= x < y < items@.len() ==> items@[x].title@ != items@[y].title@,
    ensures
        r@.len() == items@.len(),
        forall|x: int, y: int| 0 <= x < y < r@.len() ==> r@[x].title@ != r@[y].title@,
        forall|x: int, y: int|
            0 <= x < y < r@.len() ==> r@[x].total_seconds_milli >= r@[y].total_seconds_milli,
        lines_from(r@, items@),
        forall|n: Seq<char>| #[trigger] has_title(items@, n) ==> has_title(r@, n),
{
    let ghost v0 = items@;
    let mut rest = items;
    let mut out: Vec<RankingItem> = Vec::new();
    proof {
        assert forall|k: int| 0 <= k < rest@.len() implies is_line_of(
            #[trigger] rest@[k],
            v0,
        ) by {
            assert(rest@[k] == v0[k]);
        }
    }
    while rest.len() > 0
        invariant
            out@.len() + rest@.len() == v0.len(),
            forall|x: int, y: int| 0 <= x < y < out@.len() ==> out@[x].title@ != out@[y].title@,
            forall|x: int, y: int| 0 <= x < y < rest@.len() ==> rest@[x].title@ != rest@[y].title@,
            forall|x: int, y: int|
                0 <= x < out@.len() && 0 <= y < rest@.len() ==> out@[x].title@ != rest@[y].title@,
            forall|x: int, y: int|
                0 <= x < y < out@.len() ==> out@[x].total_seconds_milli
                    >= out@[y].total_seconds_milli,
            forall|x: int, y: int|
                0 <= x < out@.len() && 0 <= y < rest@.len() ==> out@[x].total_seconds_milli
                    >= rest@[y].total_seconds_milli,
            lines_from(out@, v0),
            lines_from(rest@, v0),
            forall|n: Seq<char>|
                #[trigger] has_title(v0, n) ==> has_title(out@, n) || has_title(rest@, n),
        decreases rest.len(),
    {
        let mut best: usize = 0;
        let mut t: usize = 1;
        while t < rest.len()
            invariant
                rest@.len() > 0,
                best < rest@.len(),
                t <= rest@.len(),
                forall|m: int|
                    0 <= m < t ==> rest@[best as int].total_seconds_milli
                        >= rest@[m].total_seconds_milli,
            decreases rest.len() - t,
        {
            if rest[t].total_seconds_milli > rest[best].total_seconds_milli {
                best = t;
            }
            t += 1;
        }
        let ghost rpre = rest@;
        let ghost opre = out@;
        let item = rest.remove(best);
        out.push(item);
        proof {
            assert(out@ =~= opre.push(item));
            assert(forall|m: int|
                0 <= m < rest@.len() ==> rest@[m] == (if m < best {
                    rpre[m]
                } else {
                    rpre[m + 1]
                }));
            assert forall|k: int| 0 <= k < out@.len() implies is_line_of(
                #[trigger] out@[k],
                v0,
            ) by {
                if k < opre.len() {
                    assert(out@[k] == opre[k]);
                    assert(is_line_of(opre[k], v0));
                } else {
                    assert(out@[k] == rpre[best as int]);
                    assert(is_line_of(rpre[best as int], v0));
                }
            }
            assert forall|k: int| 0 <= k < rest@.len() implies is_line_of(
                #[trigger] rest@[k],
                v0,
            ) by {
                if k < best {
                    assert(rest@[k] == rpre[k]);
                    assert(is_line_of(rpre[k], v0));
                } else {
                    assert(rest@[k] == rpre[k + 1]);
                    assert(is_line_of(rpre[k + 1], v0));
                }
            }
            assert forall|n: Seq<char>|
                #[trigger] has_title(v0, n) implies has_title(out@, n) || has_title(
                rest@,
                n,
            ) by {
                if has_title(opre, n) {
                    let q = choose|q: int| 0 <= q < opre.len() && opre[q].title@ == n;
                    assert(out@[q].title@ == n);
                } else {
                    let q = choose|q: int| 0 <= q < rpre.len() && rpre[q].title@ == n;
                    if q == best {
                        assert(out@[opre.len() as int].title@ == n);
                    } else if q < best {
                        assert(rest@[q].title@ == n);
                    } else {
                        assert(rest@[q - 1].title@ == n);
                    }
                }
            }
        }
    }
    out
}

/// What a ranking query returns: on success, each name appearing in the
/// range's entries for the category (and only such names), exactly once,
/// carrying the exact sum of its durations, in descending order of the
/// sums; on failure, the witness that some sum cannot be carried.
pub open spec fn rank_post(r: Result<Vec<RankingItem>, QueryError>, es: Seq<Entry>) -> bool {
    match r {
        Ok(v) => {
            &&& forall|x: int, y: int| 0 <= x < y < v@.len() ==> v@[x].title@ != v@[y].title@
            &&& forall|k: int| 0 <= k < v@.len() ==> appears(es, (#[trigger] v@[k]).title@)
            &&& forall|k: int|
                0 <= k < v@.len() ==> (#[trigger] v@[k]).total_seconds_milli == total_for(
                    es,
                    v@[k].title@,
                )
            &&& forall|n: Seq<char>|
                #[trigger] appears(es, n) ==> exists|k: int|
                    0 <= k < v@.len() && v@[k].title@ == n
            &&& forall|x: int, y: int|
                0 <= x < y < v@.len() ==> v@[x].total_seconds_milli
                    >= v@[y].total_seconds_milli
        },
        Err(e) => {
            &&& e == QueryError::TotalOverflow
            &&& exists|n: Seq<char>| #[trigger] appears(es, n) && total_for(es, n) > u128::MAX
        },
    }
}

/// Aggregates the stored rows whose date falls in `[from, to]` into the
/// category's ranking: every appearing name exactly once with the exact
/// sum of its durations, descending by sum. An empty range of rows gives
/// an empty ranking; the only error is a sum too large to carry.
pub fn rank(store: &Store, ty: ItemType, from: &Date, to: &Date) -> (r: Result<
    Vec<RankingItem>,
    QueryError,
>)
    requires
        store.wf(),
        from.valid(),
        to.valid(),
    ensures
        rank_post(r, range_entries(store@, ty, *from, *to)),
{
    let ghost es = range_entries(store@, ty, *from, *to);
    match group_range(store, ty, from, to) {
        Err(e) => {
            let res: Result<Vec<RankingItem>, QueryError> = Err(e);
            proof {
                assert(rank_post(res, es));
            }
            res
        },
        Ok(g) => {
            let ghost gs = g@;
            let sorted = sort_ranking(g);
            proof {
                assert forall|k: int|
                    0 <= k < sorted@.len() implies appears(es, (#[trigger] sorted@[k]).title@)
                    && sorted@[k].total_seconds_milli == total_for(es, sorted@[k].title@) by {
                    assert(lines_from(sorted@, gs));
                    assert(is_line_of(sorted@[k], gs));
                    let m = choose|m: int| 0 <= m < gs.len() && sorted@[k] == gs[m];
                    assert(gs[m].total_seconds_milli == total_for(es, gs[m].title@));
                }
                assert forall|n: Seq<char>| #[trigger] appears(es, n) implies exists|k: int|
                    0 <= k < sorted@.len() && sorted@[k].title@ == n by {
                    let m = choose|m: int| 0 <= m < gs.len() && gs[m].title@ == n;
                    assert(has_title(gs, n));
                    assert(has_title(sorted@, n));
                    let k = choose|k: int| 0 <= k < sorted@.len() && sorted@[k].title@ == n;
                    assert(sorted@[k].title@ == n);
                }
            }
            let res: Result<Vec<RankingItem>, QueryError> = Ok(sorted);
            proof {
                assert((res->Ok_0)@ == sorted@);
                assert(rank_post(res, es));
            }
            res
        },
    }
}

/// A range that no stored row falls in yields the empty ranking, never an
/// error: with no rows there are no aggregation entries, so a successful
/// result has no lines and the overflow error has no witness.
pub proof fn lemma_rank_of_no_rows(
    r: Result<Vec<RankingItem>, QueryError>,
    rows: Seq<RowView>,
    ty: ItemType,
    from: Date,
    to: Date,
)
    requires
        rows.len() == 0,
        rank_post(r, range_entries(rows, ty, from, to)),
    ensures
        r is Ok,
        r matches Ok(v) ==> v@.len() == 0,
{
    let es = range_entries(rows, ty, from, to);
    assert(es.len() == 0);
    match r {
        Ok(v) => {
            if v@.len() > 0 {
                assert(appears(es, v@[0].title@));
                let k = choose|k: int| 0 <= k < es.len() && es[k].0 == v@[0].title@;
                assert(false);
            }
        },
        Err(_) => {
            let n = choose|n: Seq<char>|
                appears(es, n) && total_for(es, n) > u128::MAX;
            let k = choose|k: int| 0 <= k < es.len() && es[k].0 == n;
            assert(false);
        },
    }
}

impl RankingItem {
    /// The editors ranking for the inclusive date range.
    pub fn get_editors_ranking(from: &Date, to: &Date, store: &Store) -> (r: Result<
        Vec<RankingItem>,
        QueryError,
    >)
        requires
            store.wf(),
            from.valid(),
            to.valid(),
        ensures
            rank_post(r, range_entries(store@, ItemType::Editors, *from, *to)),
    {
        rank(store, ItemType::Editors, from, to)
    }

    /// The languages ranking for the inclusive date range; the literal
    /// name `Other` is left out.
    pub fn get_lang_ranking(from: &Date, to: &Date, store: &Store) -> (r: Result<
        Vec<RankingItem>,
        QueryError,
    >)
        requires
            store.wf(),
            from.valid(),
            to.valid(),
        ensures
            rank_post(r, range_entries(store@, ItemType::Langs, *from, *to)),
    {
        rank(store, ItemType::Langs, from, to)
    }

    /// The projects ranking for the inclusive date range; the literal
    /// name `Unknown Project` is left out.
    pub fn get_projects_ranking(from: &Date, to: &Date, store: &Store) -> (r: Result<
        Vec<RankingItem>,
        QueryError,
    >)
        requires
            store.wf(),
            from.valid(),
            to.valid(),
        ensures
            rank_post(r, range_entries(store@, ItemType::Projects, *from, *to)),
    {
        rank(store, ItemType::Projects, from, to)
    }
}

} // verus!
