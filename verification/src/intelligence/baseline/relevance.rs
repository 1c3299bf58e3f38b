//! Which rows an evaluation depends on. A row is taken with its value, whatever the values are.

use vstd::prelude::*;

use crate::intelligence::baseline;
use crate::intelligence::baseline::Conclusion;
use crate::intelligence::baseline::Config;
use crate::intelligence::baseline::DayClass;
use crate::intelligence::baseline::ExistingObservation;
use crate::intelligence::baseline::Group;
use crate::intelligence::baseline::Reading;
use crate::intelligence::baseline::RowView;
use crate::intelligence::baseline::Scope;
use crate::intelligence::baseline::Span;
use crate::text::order;
use crate::text::order::KeyView;
use crate::text::pieces;

verus! {

pub open spec fn rows_in<V>(data: Seq<(RowView, V)>) -> Seq<RowView> {
    data.map_values(|x: (RowView, V)| x.0)
}

/// The values of a group in a window, in order.
pub open spec fn sample<V>(s: Scope, data: Seq<(RowView, V)>, key: KeyView, span: Span) -> Seq<V> {
    baseline::picked(s, rows_in(data), key, span).map_values(|i: int| data[i].1)
}

/// The rows with a property, in order, each with its value.
pub open spec fn kept<V>(data: Seq<(RowView, V)>, p: spec_fn(RowView) -> bool) -> Seq<
    (RowView, V),
>
    decreases data.len(),
{
    if data.len() == 0 {
        data
    } else if p(data.last().0) {
        kept(data.drop_last(), p).push(data.last())
    } else {
        kept(data.drop_last(), p)
    }
}

/// The row is of a day before the recent weeks.
pub open spec fn is_early(s: Scope) -> spec_fn(RowView) -> bool {
    |r: RowView| r.day <= s.windows.base_end
}

/// The row is of the user, of a dimension that is on and of a day in a window.
pub open spec fn matters(s: Scope) -> spec_fn(RowView) -> bool {
    |r: RowView|
        r.user_id == s.user_id && !s.disabled.contains(r.dimension) && (s.windows.base_start
            <= r.day <= s.windows.base_end || s.windows.recent_start <= r.day <= s.windows.as_of)
}

/// The indices of a group are those of rows that count and have its key.
pub proof fn lemma_picked(s: Scope, rows: Seq<RowView>, key: KeyView, span: Span)
    ensures
        forall|k: int|
            0 <= k < baseline::picked(s, rows, key, span).len() ==> {
                let i = #[trigger] baseline::picked(s, rows, key, span)[k];
                0 <= i < rows.len() && baseline::counts(s, rows[i], span) && baseline::group_key(
                    rows[i],
                ) == key
            },
    decreases rows.len(),
{
    if rows.len() > 0 {
        let init = rows.drop_last();
        lemma_picked(s, init, key, span);
        let a = baseline::picked(s, init, key, span);
        let b = baseline::picked(s, rows, key, span);
        assert forall|k: int| 0 <= k < b.len() implies ({
            let i = #[trigger] b[k];
            0 <= i < rows.len() && baseline::counts(s, rows[i], span) && baseline::group_key(
                rows[i],
            ) == key
        }) by {
            if k < a.len() {
                assert(b[k] == a[k]);
                assert(init[a[k]] == rows[a[k]]);
            }
        }
    }
}

/// A sample by its last row.
proof fn lemma_sample_step<V>(s: Scope, data: Seq<(RowView, V)>, key: KeyView, span: Span)
    requires
        data.len() > 0,
    ensures
        ({
            let (row, value) = data.last();
            sample(s, data, key, span) == if baseline::counts(s, row, span) && baseline::group_key(
                row,
            ) == key {
                sample(s, data.drop_last(), key, span).push(value)
            } else {
                sample(s, data.drop_last(), key, span)
            }
        }),
{
    let init = data.drop_last();
    assert(rows_in(data).drop_last() =~= rows_in(init));
    assert(rows_in(data).last() == data.last().0);
    lemma_picked(s, rows_in(init), key, span);
    let a = baseline::picked(s, rows_in(init), key, span);
    assert forall|k: int| 0 <= k < a.len() implies init[#[trigger] a[k]] == data[a[k]] by {}
    if baseline::counts(s, data.last().0, span) && baseline::group_key(data.last().0) == key {
        assert(sample(s, data, key, span) =~= sample(s, init, key, span).push(data.last().1));
    } else {
        assert(sample(s, data, key, span) =~= sample(s, init, key, span));
    }
}

/// A sample holds no row that does not count.
proof fn lemma_sample_kept<V>(
    s: Scope,
    data: Seq<(RowView, V)>,
    p: spec_fn(RowView) -> bool,
    key: KeyView,
    span: Span,
)
    requires
        forall|r: RowView| #[trigger] baseline::counts(s, r, span) ==> p(r),
    ensures
        sample(s, data, key, span) == sample(s, kept(data, p), key, span),
    decreases data.len(),
{
    if data.len() > 0 {
        let init = data.drop_last();
        lemma_sample_kept(s, init, p, key, span);
        lemma_sample_step(s, data, key, span);
        if p(data.last().0) {
            assert(kept(data, p).drop_last() =~= kept(init, p));
            lemma_sample_step(s, kept(data, p), key, span);
        }
    }
}

/// So does the count of the baseline days.
proof fn lemma_days_kept<V>(s: Scope, data: Seq<(RowView, V)>, p: spec_fn(RowView) -> bool)
    requires
        forall|r: RowView| #[trigger] baseline::counts(s, r, Span::Base) ==> p(r),
    ensures
        baseline::base_days(s, rows_in(data)) == baseline::base_days(s, rows_in(kept(data, p))),
    decreases data.len(),
{
    if data.len() > 0 {
        let init = data.drop_last();
        lemma_days_kept(s, init, p);
        assert(rows_in(data).drop_last() =~= rows_in(init));
        if p(data.last().0) {
            assert(rows_in(kept(data, p)).drop_last() =~= rows_in(kept(init, p)));
            assert(rows_in(kept(data, p)).last() == data.last().0);
        }
    }
}

/// Samples of the same size give the same groups.
proof fn lemma_same_groups<V>(
    s: Scope,
    a: Seq<(RowView, V)>,
    b: Seq<(RowView, V)>,
    cfg: Config,
    gs: Seq<Group>,
    hs: Seq<Group>,
)
    requires
        baseline::groups_are(s, rows_in(a), cfg, gs),
        baseline::groups_are(s, rows_in(b), cfg, hs),
        forall|key: KeyView| #[trigger]
            sample(s, a, key, Span::Base) == sample(s, b, key, Span::Base),
    ensures
        baseline::group_keys(gs) == baseline::group_keys(hs),
{
    assert forall|k: KeyView| #[trigger]
        baseline::group_keys(gs).contains(k) <==> baseline::group_keys(hs).contains(k) by {
        assert(sample(s, a, k, Span::Base) == sample(s, b, k, Span::Base));
        assert(sample(s, a, k, Span::Base).len() == baseline::picked(
            s,
            rows_in(a),
            k,
            Span::Base,
        ).len());
        assert(sample(s, b, k, Span::Base).len() == baseline::picked(
            s,
            rows_in(b),
            k,
            Span::Base,
        ).len());
    }
    order::lemma_ascending_unique(baseline::group_keys(gs), baseline::group_keys(hs));
}

/// Rows of the recent weeks and after change neither the warm-up nor a baseline: two histories that
/// agree up to the end of the baseline window have the same days seen, the same groups and the same
/// baseline samples.
pub proof fn law_recent_rows_leave_the_baseline_alone<V>(
    s: Scope,
    a: Seq<(RowView, V)>,
    b: Seq<(RowView, V)>,
    cfg: Config,
    gs: Seq<Group>,
    hs: Seq<Group>,
)
    requires
        kept(a, is_early(s)) == kept(b, is_early(s)),
    ensures
        baseline::days_seen(s, rows_in(a)) == baseline::days_seen(s, rows_in(b)),
        baseline::groups_are(s, rows_in(a), cfg, gs) && baseline::groups_are(
            s,
            rows_in(b),
            cfg,
            hs,
        ) ==> baseline::group_keys(gs) == baseline::group_keys(hs),
        forall|key: KeyView| #[trigger]
            sample(s, a, key, Span::Base) == sample(s, b, key, Span::Base),
{
    let p = is_early(s);
    lemma_days_kept(s, a, p);
    lemma_days_kept(s, b, p);
    assert forall|key: KeyView| #[trigger]
        sample(s, a, key, Span::Base) == sample(s, b, key, Span::Base) by {
        lemma_sample_kept(s, a, p, key, Span::Base);
        lemma_sample_kept(s, b, p, key, Span::Base);
    }
    if baseline::groups_are(s, rows_in(a), cfg, gs) && baseline::groups_are(
        s,
        rows_in(b),
        cfg,
        hs,
    ) {
        lemma_same_groups(s, a, b, cfg, gs, hs);
    }
}

/// Rows of other users, of dimensions that are switched off and of days outside the windows change
/// nothing: two histories that agree on the other rows have the same days seen, the same groups,
/// the same samples in every window, and compare the same groups.
pub proof fn law_only_rows_that_matter_count<V>(
    s: Scope,
    a: Seq<(RowView, V)>,
    b: Seq<(RowView, V)>,
    cfg: Config,
    gs: Seq<Group>,
    hs: Seq<Group>,
)
    requires
        kept(a, matters(s)) == kept(b, matters(s)),
    ensures
        baseline::days_seen(s, rows_in(a)) == baseline::days_seen(s, rows_in(b)),
        baseline::groups_are(s, rows_in(a), cfg, gs) && baseline::groups_are(
            s,
            rows_in(b),
            cfg,
            hs,
        ) ==> baseline::group_keys(gs) == baseline::group_keys(hs) && same_comparable(gs, hs),
        forall|key: KeyView, span: Span| #[trigger]
            sample(s, a, key, span) == sample(s, b, key, span),
{
    let p = matters(s);
    lemma_days_kept(s, a, p);
    lemma_days_kept(s, b, p);
    assert forall|key: KeyView, span: Span| #[trigger]
        sample(s, a, key, span) == sample(s, b, key, span) by {
        lemma_sample_kept(s, a, p, key, span);
        lemma_sample_kept(s, b, p, key, span);
    }
    if baseline::groups_are(s, rows_in(a), cfg, gs) && baseline::groups_are(
        s,
        rows_in(b),
        cfg,
        hs,
    ) {
        lemma_same_groups(s, a, b, cfg, gs, hs);
        let ks = baseline::group_keys(gs);
        assert(ks.len() == gs.len() && baseline::group_keys(hs).len() == hs.len());
        assert forall|i: int| 0 <= i < gs.len() implies (#[trigger] gs[i]).comparable
            == hs[i].comparable by {
            let k = ks[i];
            assert(k == baseline::key_of_group(gs[i]));
            assert(k == baseline::group_keys(hs)[i]);
            assert(k == baseline::key_of_group(hs[i]));
            assert(baseline::group_holds(s, rows_in(a), cfg, gs[i]));
            assert(baseline::group_holds(s, rows_in(b), cfg, hs[i]));
            assert(sample(s, a, k, Span::Recent) == sample(s, b, k, Span::Recent));
            assert(sample(s, a, k, Span::Short) == sample(s, b, k, Span::Short));
            let n = sample(s, a, k, Span::Recent).len();
            assert(baseline::indices_of(gs[i].recent@).len() == n);
            assert(baseline::indices_of(hs[i].recent@).len() == n);
            assert(baseline::indices_of(gs[i].short@).len() == sample(s, a, k, Span::Short).len());
            assert(baseline::indices_of(hs[i].short@).len() == sample(s, b, k, Span::Short).len());
        }
    }
}

/// The same groups can be compared.
pub open spec fn same_comparable(gs: Seq<Group>, hs: Seq<Group>) -> bool {
    gs.len() == hs.len() && forall|i: int|
        0 <= i < gs.len() ==> (#[trigger] gs[i]).comparable == hs[i].comparable
}

/// A group is never of a dimension that is switched off, and holds rows of the user alone, of its
/// own dimension and of days in the window.
pub proof fn law_groups_hold_rows_of_the_user(
    s: Scope,
    rows: Seq<RowView>,
    cfg: Config,
    gs: Seq<Group>,
    g: int,
)
    requires
        baseline::groups_are(s, rows, cfg, gs),
        0 <= g < gs.len(),
    ensures
        !s.disabled.contains(gs[g].dimension@),
        of_user(s, rows, gs[g], gs[g].base@, Span::Base),
        of_user(s, rows, gs[g], gs[g].recent@, Span::Recent),
        of_user(s, rows, gs[g], gs[g].short@, Span::Short),
{
    let k = baseline::key_of_group(gs[g]);
    assert(baseline::group_holds(s, rows, cfg, gs[g]));
    lemma_of_user(s, rows, gs[g], gs[g].base@, Span::Base);
    lemma_of_user(s, rows, gs[g], gs[g].recent@, Span::Recent);
    lemma_of_user(s, rows, gs[g], gs[g].short@, Span::Short);
    assert(baseline::group_keys(gs)[g] == k);
    assert(baseline::group_keys(gs).contains(k));
    lemma_picked(s, rows, k, Span::Base);
    let i = baseline::picked(s, rows, k, Span::Base)[0];
    assert(baseline::counts(s, rows[i], Span::Base));
}

/// The indices are those of rows of the user, of the group's dimension, of days in the window and
/// of the group's class of days.
pub open spec fn of_user(
    s: Scope,
    rows: Seq<RowView>,
    g: Group,
    indices: Seq<usize>,
    span: Span,
) -> bool {
    forall|k: int|
        0 <= k < indices.len() ==> {
            let i = #[trigger] indices[k];
            &&& i < rows.len()
            &&& rows[i as int].user_id == s.user_id
            &&& rows[i as int].dimension == g.dimension@
            &&& DayClass::of_day(rows[i as int].day) == g.day_class
            &&& baseline::in_span(s.windows, rows[i as int].day, span)
        }
}

proof fn lemma_of_user(s: Scope, rows: Seq<RowView>, g: Group, indices: Seq<usize>, span: Span)
    requires
        baseline::indices_of(indices) == baseline::picked(
            s,
            rows,
            baseline::key_of_group(g),
            span,
        ),
    ensures
        of_user(s, rows, g, indices, span),
{
    let key = baseline::key_of_group(g);
    lemma_picked(s, rows, key, span);
    assert forall|k: int| 0 <= k < indices.len() implies ({
        let i = #[trigger] indices[k];
        &&& i < rows.len()
        &&& rows[i as int].user_id == s.user_id
        &&& rows[i as int].dimension == g.dimension@
        &&& DayClass::of_day(rows[i as int].day) == g.day_class
        &&& baseline::in_span(s.windows, rows[i as int].day, span)
    }) by {
        let i = baseline::indices_of(indices)[k];
        assert(i == indices[k]);
        assert(baseline::picked(s, rows, key, span)[k] == i);
    }
}

// ---- what a conclusion depends on ----

proof fn lemma_same_drifts(gs: Seq<Group>, hs: Seq<Group>, rs: Seq<Reading>, n: int)
    requires
        same_comparable(gs, hs),
        n <= gs.len(),
    ensures
        baseline::drift_list(gs, rs, n) == baseline::drift_list(hs, rs, n),
        baseline::fit(baseline::drift_list(gs, rs, n), gs.len() as int),
    decreases n,
{
    if n > 0 {
        lemma_same_drifts(gs, hs, rs, n - 1);
        assert(gs[n - 1].comparable == hs[n - 1].comparable);
        let a = baseline::drift_list(gs, rs, n - 1);
        let b = baseline::drift_list(gs, rs, n);
        assert forall|i: int| 0 <= i < b.len() implies 0 <= #[trigger] b[i] < gs.len() by {
            if i < a.len() {
                assert(b[i] == a[i]);
            }
        }
    }
}

/// The groups have the same dimensions and classes of days.
proof fn lemma_same_keys(gs: Seq<Group>, hs: Seq<Group>)
    requires
        baseline::group_keys(gs) == baseline::group_keys(hs),
    ensures
        gs.len() == hs.len(),
        forall|i: int|
            0 <= i < gs.len() ==> (#[trigger] gs[i]).dimension@ == hs[i].dimension@
                && gs[i].day_class == hs[i].day_class,
{
    assert(baseline::group_keys(gs).len() == gs.len());
    assert(baseline::group_keys(hs).len() == hs.len());
    assert forall|i: int| 0 <= i < gs.len() implies (#[trigger] gs[i]).dimension@
        == hs[i].dimension@ && gs[i].day_class == hs[i].day_class by {
        assert(baseline::group_keys(gs)[i] == baseline::key_of_group(gs[i]));
        assert(baseline::group_keys(hs)[i] == baseline::key_of_group(hs[i]));
    }
}

proof fn lemma_same_lists(
    gs: Seq<Group>,
    hs: Seq<Group>,
    list: Seq<int>,
    existing: Seq<ExistingObservation>,
    since: int,
    down: bool,
    c: DayClass,
)
    requires
        baseline::group_keys(gs) == baseline::group_keys(hs),
        baseline::fit(list, gs.len() as int),
    ensures
        baseline::dims_of(gs, list) == baseline::dims_of(hs, list),
        baseline::by_cooldown(gs, list, existing, since, down) == baseline::by_cooldown(
            hs,
            list,
            existing,
            since,
            down,
        ),
        baseline::fit(
            baseline::by_cooldown(gs, list, existing, since, down),
            gs.len() as int,
        ),
        baseline::of_class(gs, list, c) == baseline::of_class(hs, list, c),
        baseline::fit(baseline::of_class(gs, list, c), gs.len() as int),
        baseline::first_by_dimension(gs, list) == baseline::first_by_dimension(hs, list),
        baseline::fit(baseline::first_by_dimension(gs, list), gs.len() as int),
    decreases list.len(),
{
    lemma_same_keys(gs, hs);
    let n = gs.len() as int;
    assert(baseline::dims_of(gs, list) =~= baseline::dims_of(hs, list));
    if list.len() > 0 {
        let init = list.drop_last();
        let x = list.last();
        assert(list[list.len() - 1] == x);
        assert forall|i: int| 0 <= i < init.len() implies 0 <= #[trigger] init[i] < n by {
            assert(init[i] == list[i]);
        }
        lemma_same_lists(gs, hs, init, existing, since, down, c);
        assert(gs[x].dimension@ == hs[x].dimension@);
        let first = baseline::first_by_dimension(gs, init);
        assert(baseline::dims_of(gs, first) =~= baseline::dims_of(hs, first));
        baseline::lemma_push_fits(baseline::by_cooldown(gs, init, existing, since, down), x, n);
        baseline::lemma_push_fits(baseline::of_class(gs, init, c), x, n);
        baseline::lemma_push_fits(first, x, n);
    }
}

proof fn lemma_same_spoken(gs: Seq<Group>, hs: Seq<Group>, active: Seq<int>)
    requires
        baseline::group_keys(gs) == baseline::group_keys(hs),
        baseline::fit(active, gs.len() as int),
    ensures
        baseline::spoken_of(gs, active) == baseline::spoken_of(hs, active),
        baseline::fit(baseline::spoken_of(gs, active), gs.len() as int),
{
    let none = Seq::<ExistingObservation>::empty();
    lemma_same_lists(gs, hs, active, none, 0, true, DayClass::Weekday);
    lemma_same_lists(gs, hs, active, none, 0, true, DayClass::Weekend);
    let list = baseline::weekdays_first(gs, active);
    baseline::lemma_concat_fits(
        baseline::of_class(gs, active, DayClass::Weekday),
        baseline::of_class(gs, active, DayClass::Weekend),
        gs.len() as int,
    );
    lemma_same_lists(gs, hs, list, none, 0, true, DayClass::Weekday);
    let first = baseline::first_by_dimension(gs, list);
    let spoken = baseline::spoken_of(gs, active);
    assert forall|i: int| 0 <= i < spoken.len() implies 0 <= #[trigger] spoken[i] < gs.len() by {
        assert(spoken[i] == first[i]);
    }
}

/// The sorted texts of a list are determined.
proof fn lemma_one_sorted(a: Seq<Seq<char>>, b: Seq<Seq<char>>, list: Seq<Seq<char>>)
    requires
        baseline::sorted_from(a, list),
        baseline::sorted_from(b, list),
    ensures
        a == b,
{
    let f = |t: Seq<char>| KeyView { text: t, number: 0 };
    let x = a.map_values(f);
    let y = b.map_values(f);
    assert forall|i: int, j: int| 0 <= i < j < x.len() implies order::key_before(
        #[trigger] x[i],
        #[trigger] x[j],
    ) by {
        assert(order::before(a[i], a[j]));
    }
    assert forall|i: int, j: int| 0 <= i < j < y.len() implies order::key_before(
        #[trigger] y[i],
        #[trigger] y[j],
    ) by {
        assert(order::before(b[i], b[j]));
    }
    assert forall|k: KeyView| #[trigger] x.contains(k) <==> y.contains(k) by {
        assert(a.contains(k.text) <==> list.contains(k.text));
        assert(b.contains(k.text) <==> list.contains(k.text));
        if x.contains(k) {
            let i = choose|i: int| 0 <= i < x.len() && x[i] == k;
            assert(a[i] == k.text);
            let j = choose|j: int| 0 <= j < b.len() && b[j] == k.text;
            assert(y[j] == k);
        }
        if y.contains(k) {
            let i = choose|i: int| 0 <= i < y.len() && y[i] == k;
            assert(b[i] == k.text);
            let j = choose|j: int| 0 <= j < a.len() && a[j] == k.text;
            assert(x[j] == k);
        }
    }
    order::lemma_ascending_unique(x, y);
    assert(a.len() == x.len() && b.len() == y.len());
    assert forall|i: int| 0 <= i < a.len() implies a[i] == b[i] by {
        assert(x[i] == y[i]);
    }
    assert(a =~= b);
}

/// Two conclusions say the same.
pub open spec fn same_conclusion(c: Conclusion, d: Conclusion) -> bool {
    &&& baseline::indices_of(c.drifts@) == baseline::indices_of(d.drifts@)
    &&& baseline::indices_of(c.active@) == baseline::indices_of(d.active@)
    &&& pieces::strings(c.cooled_down@) == pieces::strings(d.cooled_down@)
    &&& match (c.observation, d.observation) {
        (Some(o), Some(p)) => baseline::indices_of(o.groups@) == baseline::indices_of(p.groups@)
            && pieces::strings(o.dimensions@) == pieces::strings(p.dimensions@),
        (None, None) => true,
        _ => false,
    }
}

/// What is concluded depends on the groups only by their dimensions, their classes of days and
/// whether they can be compared: not on which rows they hold, beyond what the readings say.
pub proof fn law_same_groups_same_conclusion(
    gs: Seq<Group>,
    hs: Seq<Group>,
    rs: Seq<Reading>,
    existing: Seq<ExistingObservation>,
    since: int,
    cfg: Config,
    c: Conclusion,
    d: Conclusion,
)
    requires
        baseline::group_keys(gs) == baseline::group_keys(hs),
        same_comparable(gs, hs),
        baseline::conclusion_is(gs, rs, existing, since, cfg, c),
        baseline::conclusion_is(hs, rs, existing, since, cfg, d),
    ensures
        same_conclusion(c, d),
{
    let n = gs.len() as int;
    lemma_same_drifts(gs, hs, rs, n);
    let drifts = baseline::drift_list(gs, rs, n);
    lemma_same_lists(gs, hs, drifts, existing, since, false, DayClass::Weekday);
    lemma_same_lists(gs, hs, drifts, existing, since, true, DayClass::Weekday);
    let active = baseline::by_cooldown(gs, drifts, existing, since, false);
    let suppressed = baseline::by_cooldown(gs, drifts, existing, since, true);
    lemma_same_lists(gs, hs, active, existing, since, true, DayClass::Weekday);
    lemma_same_lists(gs, hs, suppressed, existing, since, true, DayClass::Weekday);
    lemma_one_sorted(
        pieces::strings(c.cooled_down@),
        pieces::strings(d.cooled_down@),
        baseline::dims_of(gs, suppressed),
    );
    lemma_same_spoken(gs, hs, active);
    let spoken = baseline::spoken_of(gs, active);
    lemma_same_lists(gs, hs, spoken, existing, since, true, DayClass::Weekday);
    match (c.observation, d.observation) {
        (Some(o), Some(p)) => {
            lemma_one_sorted(
                pieces::strings(o.dimensions@),
                pieces::strings(p.dimensions@),
                baseline::dims_of(gs, spoken),
            );
        },
        _ => {},
    }
}

/// What is read from the samples of the groups, where a reading is a function of them.
pub open spec fn readings_of<V>(
    s: Scope,
    data: Seq<(RowView, V)>,
    gs: Seq<Group>,
    read: spec_fn(KeyView, Seq<V>, Seq<V>, Seq<V>) -> Reading,
) -> Seq<Reading> {
    baseline::group_keys(gs).map_values(
        |k: KeyView|
            read(
                k,
                sample(s, data, k, Span::Base),
                sample(s, data, k, Span::Recent),
                sample(s, data, k, Span::Short),
            ),
    )
}

/// Rows that do not matter change nothing of an evaluation, whatever the readings are of the
/// samples: the drifts, what is cooled down and the observation stay as they are.
pub proof fn law_only_rows_that_matter_are_concluded_from<V>(
    s: Scope,
    a: Seq<(RowView, V)>,
    b: Seq<(RowView, V)>,
    cfg: Config,
    gs: Seq<Group>,
    hs: Seq<Group>,
    read: spec_fn(KeyView, Seq<V>, Seq<V>, Seq<V>) -> Reading,
    existing: Seq<ExistingObservation>,
    since: int,
    c: Conclusion,
    d: Conclusion,
)
    requires
        kept(a, matters(s)) == kept(b, matters(s)),
        baseline::groups_are(s, rows_in(a), cfg, gs),
        baseline::groups_are(s, rows_in(b), cfg, hs),
        baseline::conclusion_is(gs, readings_of(s, a, gs, read), existing, since, cfg, c),
        baseline::conclusion_is(hs, readings_of(s, b, hs, read), existing, since, cfg, d),
    ensures
        same_conclusion(c, d),
{
    law_only_rows_that_matter_count(s, a, b, cfg, gs, hs);
    let x = readings_of(s, a, gs, read);
    let y = readings_of(s, b, hs, read);
    let ks = baseline::group_keys(gs);
    assert forall|i: int| 0 <= i < x.len() implies #[trigger] x[i] == y[i] by {
        let k = ks[i];
        assert(sample(s, a, k, Span::Base) == sample(s, b, k, Span::Base));
        assert(sample(s, a, k, Span::Recent) == sample(s, b, k, Span::Recent));
        assert(sample(s, a, k, Span::Short) == sample(s, b, k, Span::Short));
    }
    assert(x =~= y);
    law_same_groups_same_conclusion(gs, hs, x, existing, since, cfg, c, d);
}

/// What is concluded names no dimension that is switched off.
pub proof fn law_no_disabled_dimension_is_named(
    s: Scope,
    rows: Seq<RowView>,
    cfg: Config,
    gs: Seq<Group>,
    rs: Seq<Reading>,
    existing: Seq<ExistingObservation>,
    since: int,
    c: Conclusion,
    name: Seq<char>,
)
    requires
        baseline::groups_are(s, rows, cfg, gs),
        baseline::conclusion_is(gs, rs, existing, since, cfg, c),
        s.disabled.contains(name),
    ensures
        !pieces::strings(c.cooled_down@).contains(name),
        c.observation matches Some(o) ==> !pieces::strings(o.dimensions@).contains(name),
{
    let n = gs.len() as int;
    lemma_same_drifts(gs, gs, rs, n);
    let drifts = baseline::drift_list(gs, rs, n);
    lemma_same_lists(gs, gs, drifts, existing, since, false, DayClass::Weekday);
    lemma_same_lists(gs, gs, drifts, existing, since, true, DayClass::Weekday);
    let active = baseline::by_cooldown(gs, drifts, existing, since, false);
    lemma_same_spoken(gs, gs, active);
    lemma_enabled(
        s,
        rows,
        cfg,
        gs,
        baseline::by_cooldown(gs, drifts, existing, since, true),
        name,
    );
    lemma_enabled(s, rows, cfg, gs, baseline::spoken_of(gs, active), name);
}

proof fn lemma_enabled(
    s: Scope,
    rows: Seq<RowView>,
    cfg: Config,
    gs: Seq<Group>,
    list: Seq<int>,
    name: Seq<char>,
)
    requires
        baseline::groups_are(s, rows, cfg, gs),
        baseline::fit(list, gs.len() as int),
        s.disabled.contains(name),
    ensures
        !baseline::dims_of(gs, list).contains(name),
{
    let dims = baseline::dims_of(gs, list);
    if dims.contains(name) {
        let k = choose|k: int| 0 <= k < dims.len() && dims[k] == name;
        assert(dims[k] == gs[list[k]].dimension@);
        law_groups_hold_rows_of_the_user(s, rows, cfg, gs, list[k]);
    }
}

} // verus!
