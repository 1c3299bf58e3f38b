//! What an evaluation promises, on days, rows and dimensions.

use vstd::prelude::*;

use crate::calendar;
use crate::intelligence::baseline;
use crate::intelligence::baseline::Conclusion;
use crate::intelligence::baseline::Config;
use crate::intelligence::baseline::DayClass;
use crate::intelligence::baseline::ExistingObservation;
use crate::intelligence::baseline::Group;
use crate::intelligence::baseline::Plan;
use crate::intelligence::baseline::Reading;
use crate::intelligence::baseline::RowView;
use crate::intelligence::baseline::Scope;
use crate::intelligence::baseline::Span;
use crate::text::order::KeyView;
use crate::text::pieces;

verus! {

// ---- days ----

/// Saturdays and Sundays are weekend days, the other five of a week are not. Day 1 is a Monday.
pub proof fn law_two_days_of_seven_are_weekend(n: int)
    ensures
        DayClass::of_day(n) == DayClass::Weekend <==> n % 7 == 6 || n % 7 == 0,
        DayClass::of_day(n) == DayClass::Weekday <==> 1 <= n % 7 <= 5,
        DayClass::of_day(n + 7) == DayClass::of_day(n),
{
}

/// A day is in a window by its age: the recent window holds the last `recent_days` days, with the
/// day of the evaluation as the youngest, the short one those of them under `short_days` old, and
/// the baseline the `window_days` days before them.
pub proof fn law_windows_by_age(as_of: int, cfg: Config, n: int)
    requires
        baseline::windows_fit(as_of, cfg),
    ensures
        ({
            let w = baseline::windows_of(as_of, cfg);
            let age = as_of - n;
            &&& baseline::in_span(w, n, Span::Recent) <==> 0 <= age < cfg.recent_days
            &&& baseline::in_span(w, n, Span::Short) <==> 0 <= age < cfg.recent_days && age
                < cfg.short_days
            &&& baseline::in_span(w, n, Span::Base) <==> cfg.recent_days <= age < cfg.recent_days
                + cfg.window_days
        }),
{
    lemma_in_range(as_of);
    lemma_in_range(as_of - (cfg.recent_days - 1));
    lemma_in_range(as_of - cfg.recent_days);
    lemma_in_range(as_of - cfg.recent_days - (cfg.window_days - 1));
    lemma_in_range(as_of - (cfg.short_days - 1));
}

proof fn lemma_in_range(n: int)
    requires
        calendar::in_calendar(n),
    ensures
        i64::MIN <= n <= i64::MAX,
{
}

// ---- rows ----

/// The row is the user's, of a dimension that is on, and between `from` and `until` days old.
pub open spec fn is_of(
    r: RowView,
    user: Seq<char>,
    disabled: Seq<Seq<char>>,
    as_of: int,
    from: int,
    until: int,
) -> bool {
    &&& r.user_id == user
    &&& !disabled.contains(r.dimension)
    &&& from <= as_of - r.day < until
}

/// The rows of one user and of days of one age, in a dimension that is on.
pub open spec fn rows_aged(
    user: Seq<char>,
    disabled: Seq<Seq<char>>,
    as_of: int,
    from: int,
    until: int,
) -> spec_fn(RowView) -> bool {
    |r: RowView| is_of(r, user, disabled, as_of, from, until)
}

/// Those of them that are of one dimension and one class of days.
pub open spec fn rows_grouped(
    user: Seq<char>,
    disabled: Seq<Seq<char>>,
    as_of: int,
    from: int,
    until: int,
    d: Seq<char>,
    c: DayClass,
) -> spec_fn(RowView) -> bool {
    |r: RowView|
        is_of(r, user, disabled, as_of, from, until) && r.dimension == d && DayClass::of_day(r.day)
            == c
}

/// How old the days of a window are: from, and until under.
pub open spec fn ages(cfg: Config, span: Span) -> (int, int) {
    match span {
        Span::Base => (cfg.recent_days as int, cfg.recent_days + cfg.window_days),
        Span::Recent => (0, cfg.recent_days as int),
        Span::Short => (
            0,
            if cfg.short_days < cfg.recent_days {
                cfg.short_days as int
            } else {
                cfg.recent_days as int
            },
        ),
    }
}

proof fn lemma_counts(user: Seq<char>, as_of: int, cfg: Config, r: RowView, span: Span)
    requires
        baseline::windows_fit(as_of, cfg),
    ensures
        baseline::counts(baseline::scope_of(user, as_of, cfg), r, span) <==> is_of(
            r,
            user,
            pieces::strings(cfg.disabled@),
            as_of,
            ages(cfg, span).0,
            ages(cfg, span).1,
        ),
{
    law_windows_by_age(as_of, cfg, r.day);
}

proof fn lemma_same_group(r: RowView, d: Seq<char>, c: DayClass)
    ensures
        baseline::group_key(r) == (KeyView { text: d, number: c.rank() }) <==> r.dimension == d
            && DayClass::of_day(r.day) == c,
{
}

/// The rows of a group in a window are the user's, of its dimension and class of days, of days of
/// the window's age: all of them, in order.
proof fn lemma_picked_rows(
    user: Seq<char>,
    as_of: int,
    cfg: Config,
    rows: Seq<RowView>,
    d: Seq<char>,
    c: DayClass,
    span: Span,
)
    requires
        baseline::windows_fit(as_of, cfg),
    ensures
        ({
            let s = baseline::scope_of(user, as_of, cfg);
            let k = KeyView { text: d, number: c.rank() };
            let p = baseline::picked(s, rows, k, span);
            let f = rows_grouped(
                user,
                pieces::strings(cfg.disabled@),
                as_of,
                ages(cfg, span).0,
                ages(cfg, span).1,
                d,
                c,
            );
            &&& p.len() == rows.filter(f).len()
            &&& forall|i: int|
                0 <= i < rows.len() ==> (p.contains(i) <==> f(#[trigger] rows[i]))
            &&& baseline::ascends(p)
            &&& forall|j: int| 0 <= j < p.len() ==> 0 <= #[trigger] p[j] < rows.len()
        }),
    decreases rows.len(),
{
    reveal(Seq::filter);
    let s = baseline::scope_of(user, as_of, cfg);
    let k = KeyView { text: d, number: c.rank() };
    let f = rows_grouped(
        user,
        pieces::strings(cfg.disabled@),
        as_of,
        ages(cfg, span).0,
        ages(cfg, span).1,
        d,
        c,
    );
    let p = baseline::picked(s, rows, k, span);
    if rows.len() > 0 {
        let init = rows.drop_last();
        lemma_picked_rows(user, as_of, cfg, init, d, c, span);
        lemma_counts(user, as_of, cfg, rows.last(), span);
        lemma_same_group(rows.last(), d, c);
        let q = baseline::picked(s, init, k, span);
        assert forall|i: int| 0 <= i < rows.len() implies (p.contains(i) <==> f(
            #[trigger] rows[i],
        )) by {
            if i == rows.len() - 1 {
                assert(rows[i] == rows.last());
                if f(rows[i]) {
                    assert(p[q.len() as int] == i);
                }
                if p.contains(i) && !f(rows[i]) {
                    assert(q.contains(i));
                    let j = choose|j: int| 0 <= j < q.len() && q[j] == i;
                    assert(q[j] < init.len());
                }
            } else {
                assert(init[i] == rows[i]);
                assert(q.contains(i) <==> f(init[i]));
                if q.contains(i) {
                    let j = choose|j: int| 0 <= j < q.len() && q[j] == i;
                    assert(p[j] == i);
                }
                if p.contains(i) {
                    let j = choose|j: int| 0 <= j < p.len() && p[j] == i;
                    assert(j < q.len() && q[j] == i);
                }
            }
        }
    }
}

/// A group has the rows of its user, dimension and class of days: row `i` is in the baseline, the
/// recent or the short window of its group exactly where its day is of the window's age.
pub proof fn law_a_group_holds_its_rows(
    user: Seq<char>,
    as_of: int,
    cfg: Config,
    rows: Seq<RowView>,
    g: Group,
    i: int,
)
    requires
        baseline::windows_fit(as_of, cfg),
        baseline::group_holds(baseline::scope_of(user, as_of, cfg), rows, cfg, g),
        0 <= i < rows.len(),
    ensures
        ({
            let own = rows[i].user_id == user && rows[i].dimension == g.dimension@
                && !pieces::strings(cfg.disabled@).contains(rows[i].dimension) && DayClass::of_day(
                rows[i].day,
            ) == g.day_class;
            let age = as_of - rows[i].day;
            &&& baseline::indices_of(g.base@).contains(i) <==> own && cfg.recent_days <= age
                < cfg.recent_days + cfg.window_days
            &&& baseline::indices_of(g.recent@).contains(i) <==> own && 0 <= age < cfg.recent_days
            &&& baseline::indices_of(g.short@).contains(i) <==> own && 0 <= age < cfg.recent_days
                && age < cfg.short_days
        }),
        baseline::ascends(baseline::indices_of(g.base@)),
        baseline::ascends(baseline::indices_of(g.recent@)),
        baseline::ascends(baseline::indices_of(g.short@)),
{
    lemma_picked_rows(user, as_of, cfg, rows, g.dimension@, g.day_class, Span::Base);
    lemma_picked_rows(user, as_of, cfg, rows, g.dimension@, g.day_class, Span::Recent);
    lemma_picked_rows(user, as_of, cfg, rows, g.dimension@, g.day_class, Span::Short);
    assert(rows[i] == rows[i]);
}

/// The group can be compared exactly where each of the recent windows has at least one row and as
/// many as are asked for.
pub proof fn law_a_group_is_comparable_with_enough_rows(
    s: Scope,
    rows: Seq<RowView>,
    cfg: Config,
    g: Group,
)
    requires
        baseline::group_holds(s, rows, cfg, g),
    ensures
        g.comparable <==> g.recent@.len() >= 1 && g.recent@.len() >= cfg.min_recent_samples
            && g.short@.len() >= 1 && g.short@.len() >= cfg.min_short_samples,
{
}

/// There is a group of a dimension and a class of days exactly where the baseline window has at
/// least one row of them, and as many as are asked for.
pub proof fn law_groups_have_enough_rows(
    user: Seq<char>,
    as_of: int,
    cfg: Config,
    rows: Seq<RowView>,
    gs: Seq<Group>,
    d: Seq<char>,
    c: DayClass,
)
    requires
        baseline::windows_fit(as_of, cfg),
        baseline::groups_are(baseline::scope_of(user, as_of, cfg), rows, cfg, gs),
    ensures
        ({
            let n = rows.filter(
                rows_grouped(
                    user,
                    pieces::strings(cfg.disabled@),
                    as_of,
                    cfg.recent_days as int,
                    cfg.recent_days + cfg.window_days,
                    d,
                    c,
                ),
            ).len();
            (exists|g: int|
                0 <= g < gs.len() && (#[trigger] gs[g]).dimension@ == d && gs[g].day_class == c)
                <==> n >= 1 && n >= cfg.min_baseline_samples
        }),
{
    lemma_picked_rows(user, as_of, cfg, rows, d, c, Span::Base);
    let k = KeyView { text: d, number: c.rank() };
    let ks = baseline::group_keys(gs);
    if ks.contains(k) {
        let g = choose|g: int| 0 <= g < ks.len() && ks[g] == k;
        assert(gs[g].dimension@ == d && gs[g].day_class == c);
    }
    if exists|g: int|
        0 <= g < gs.len() && (#[trigger] gs[g]).dimension@ == d && gs[g].day_class == c {
        let g = choose|g: int|
            0 <= g < gs.len() && (#[trigger] gs[g]).dimension@ == d && gs[g].day_class == c;
        assert(ks[g] == k);
    }
}

/// No two groups are of the same dimension and class of days.
pub proof fn law_one_group_each(
    s: Scope,
    rows: Seq<RowView>,
    cfg: Config,
    gs: Seq<Group>,
    a: int,
    b: int,
)
    requires
        baseline::groups_are(s, rows, cfg, gs),
        0 <= a < b < gs.len(),
    ensures
        gs[a].dimension@ != gs[b].dimension@ || gs[a].day_class != gs[b].day_class,
{
    let ks = baseline::group_keys(gs);
    assert(crate::text::order::key_before(ks[a], ks[b]));
    crate::text::order::lemma_irreflexive(ks[a].text);
}

proof fn lemma_base_days(user: Seq<char>, as_of: int, cfg: Config, rows: Seq<RowView>)
    requires
        baseline::windows_fit(as_of, cfg),
    ensures
        baseline::base_days(baseline::scope_of(user, as_of, cfg), rows) == rows.filter(
            rows_aged(
                user,
                pieces::strings(cfg.disabled@),
                as_of,
                cfg.recent_days as int,
                cfg.recent_days + cfg.window_days,
            ),
        ).map_values(|r: RowView| r.day),
    decreases rows.len(),
{
    reveal(Seq::filter);
    let f = rows_aged(
        user,
        pieces::strings(cfg.disabled@),
        as_of,
        cfg.recent_days as int,
        cfg.recent_days + cfg.window_days,
    );
    let day = |r: RowView| r.day;
    if rows.len() > 0 {
        let init = rows.drop_last();
        lemma_base_days(user, as_of, cfg, init);
        lemma_counts(user, as_of, cfg, rows.last(), Span::Base);
        if f(rows.last()) {
            assert(init.filter(f).push(rows.last()).map_values(day) =~= init.filter(
                f,
            ).map_values(day).push(rows.last().day));
        }
    } else {
        assert(rows.filter(f).map_values(day) =~= Seq::<int>::empty());
    }
}

/// An evaluation warms up exactly while the baseline window has rows of the user of fewer distinct
/// days than are asked for, and says how many it has.
pub proof fn law_warmup_counts_days(
    user: Seq<char>,
    as_of: int,
    cfg: Config,
    rows: Seq<RowView>,
    p: Plan,
)
    requires
        baseline::windows_fit(as_of, cfg),
        baseline::plan_is(baseline::scope_of(user, as_of, cfg), rows, cfg, p),
    ensures
        ({
            let days = rows.filter(
                rows_aged(
                    user,
                    pieces::strings(cfg.disabled@),
                    as_of,
                    cfg.recent_days as int,
                    cfg.recent_days + cfg.window_days,
                ),
            ).map_values(|r: RowView| r.day).to_set().len();
            &&& p is Warmup <==> days < cfg.warmup_days
            &&& p matches Plan::Warmup(st) ==> st.days_seen == days && st.days_needed
                == cfg.warmup_days
        }),
{
    lemma_base_days(user, as_of, cfg, rows);
}

// ---- conclusions ----

/// A group is among the drifts exactly where it can be compared, both recent medians are beyond the
/// threshold, and they are on the same side.
pub proof fn law_what_a_drift_is(
    gs: Seq<Group>,
    rs: Seq<Reading>,
    existing: Seq<ExistingObservation>,
    as_of: int,
    cfg: Config,
    c: Conclusion,
    g: int,
)
    requires
        baseline::concluded(gs, rs, existing, as_of, cfg, c),
        0 <= g < gs.len(),
    ensures
        baseline::indices_of(c.drifts@).contains(g) <==> gs[g].comparable && rs[g].recent_beyond
            && rs[g].short_beyond && rs[g].same_side,
{
    baseline::law_active_groups_have_drifted(gs, rs, existing, as_of - cfg.cooldown_days, g);
}

/// An earlier observation of a dimension, made less than the cooldown ago.
pub open spec fn is_fresh(o: ExistingObservation, as_of: int, cfg: Config, d: Seq<char>) -> bool {
    as_of - o.created_on.number < cfg.cooldown_days && pieces::strings(o.dimensions@).contains(d)
}

/// A drift is suppressed exactly while an observation of its dimension is less than the cooldown
/// old; on the day on which the cooldown is over it is active again.
pub proof fn law_cooldown_by_age(
    gs: Seq<Group>,
    rs: Seq<Reading>,
    existing: Seq<ExistingObservation>,
    as_of: int,
    cfg: Config,
    c: Conclusion,
    g: int,
)
    requires
        baseline::concluded(gs, rs, existing, as_of, cfg, c),
        0 <= g < gs.len(),
    ensures
        baseline::indices_of(c.active@).contains(g) <==> baseline::indices_of(
            c.drifts@,
        ).contains(g) && forall|i: int|
            0 <= i < existing.len() ==> !is_fresh(
                #[trigger] existing[i],
                as_of,
                cfg,
                gs[g].dimension@,
            ),
{
    baseline::law_active_groups_have_drifted(gs, rs, existing, as_of - cfg.cooldown_days, g);
}

/// The dimensions that are named as cooled down are exactly those of the drifts that are not
/// active.
pub proof fn law_cooled_down_dimensions_are_named(
    gs: Seq<Group>,
    rs: Seq<Reading>,
    existing: Seq<ExistingObservation>,
    as_of: int,
    cfg: Config,
    c: Conclusion,
    d: Seq<char>,
)
    requires
        baseline::concluded(gs, rs, existing, as_of, cfg, c),
    ensures
        pieces::strings(c.cooled_down@).contains(d) <==> exists|g: int|
            baseline::indices_of(c.drifts@).contains(g) && !baseline::indices_of(
                c.active@,
            ).contains(g) && (#[trigger] gs[g]).dimension@ == d,
{
    let since = as_of - cfg.cooldown_days;
    let drifts = baseline::drift_list(gs, rs, gs.len() as int);
    let down = baseline::by_cooldown(gs, drifts, existing, since, true);
    let dims = baseline::dims_of(gs, down);
    assert forall|g: int| drifts.contains(g) && !baseline::by_cooldown(
        gs,
        drifts,
        existing,
        since,
        false,
    ).contains(g) <==> down.contains(g) by {
        baseline::law_active_groups_have_drifted(gs, rs, existing, since, g);
    }
    if dims.contains(d) {
        let k = choose|k: int| 0 <= k < dims.len() && dims[k] == d;
        assert(down.contains(down[k]));
        assert(gs[down[k]].dimension@ == d);
    }
    if exists|g: int| down.contains(g) && (#[trigger] gs[g]).dimension@ == d {
        let g = choose|g: int| down.contains(g) && (#[trigger] gs[g]).dimension@ == d;
        let k = choose|k: int| 0 <= k < down.len() && down[k] == g;
        assert(dims[k] == d);
    }
}

/// `names` are the dimensions of the active groups, each once.
pub open spec fn names_active(gs: Seq<Group>, c: Conclusion, names: Seq<Seq<char>>) -> bool {
    &&& names.no_duplicates()
    &&& forall|i: int|
        0 <= i < c.active@.len() ==> names.contains(
            gs[(#[trigger] c.active@[i]) as int].dimension@,
        )
    &&& forall|j: int|
        0 <= j < names.len() ==> exists|i: int|
            0 <= i < c.active@.len() && gs[(#[trigger] c.active@[i]) as int].dimension@
                == #[trigger] names[j]
}

/// There is an observation exactly where the active groups name at least as many dimensions as make
/// one meaningful, or one of them is beyond its threshold on as many days as do.
pub proof fn law_an_observation_needs_dimensions_or_days(
    gs: Seq<Group>,
    rs: Seq<Reading>,
    existing: Seq<ExistingObservation>,
    as_of: int,
    cfg: Config,
    c: Conclusion,
    names: Seq<Seq<char>>,
)
    requires
        baseline::concluded(gs, rs, existing, as_of, cfg, c),
        names_active(gs, c, names),
    ensures
        c.observation is Some <==> names.len() >= cfg.min_dimensions || exists|i: int|
            0 <= i < c.active@.len() && rs[(#[trigger] c.active@[i]) as int].days_beyond
                >= cfg.single_dimension_min_days,
{
    let active = baseline::indices_of(c.active@);
    let dims = baseline::dims_of(gs, active);
    assert forall|x: Seq<char>| dims.to_set().contains(x) <==> names.to_set().contains(x) by {
        if dims.contains(x) {
            let i = choose|i: int| 0 <= i < dims.len() && dims[i] == x;
            assert(gs[c.active@[i] as int].dimension@ == x);
        }
        if names.contains(x) {
            let j = choose|j: int| 0 <= j < names.len() && names[j] == x;
            let i = choose|i: int|
                0 <= i < c.active@.len() && gs[(#[trigger] c.active@[i]) as int].dimension@
                    == names[j];
            assert(dims[i] == x);
        }
    }
    assert(dims.to_set() =~= names.to_set());
    names.unique_seq_to_set();
    let enough = exists|i: int|
        0 <= i < active.len() && rs[#[trigger] active[i]].days_beyond
            >= cfg.single_dimension_min_days;
    if enough {
        let i = choose|i: int|
            0 <= i < active.len() && rs[#[trigger] active[i]].days_beyond
                >= cfg.single_dimension_min_days;
        assert(active[i] == c.active@[i]);
    }
    if exists|i: int|
        0 <= i < c.active@.len() && rs[(#[trigger] c.active@[i]) as int].days_beyond
            >= cfg.single_dimension_min_days {
        let i = choose|i: int|
            0 <= i < c.active@.len() && rs[(#[trigger] c.active@[i]) as int].days_beyond
                >= cfg.single_dimension_min_days;
        assert(active[i] == c.active@[i]);
    }
}

/// Two active groups of different dimensions are worth an observation where two dimensions are
/// enough, on however few days.
pub proof fn law_two_dimensions_are_worth_an_observation(
    gs: Seq<Group>,
    rs: Seq<Reading>,
    existing: Seq<ExistingObservation>,
    as_of: int,
    cfg: Config,
    c: Conclusion,
    a: int,
    b: int,
)
    requires
        baseline::concluded(gs, rs, existing, as_of, cfg, c),
        cfg.min_dimensions <= 2,
        0 <= a < c.active@.len(),
        0 <= b < c.active@.len(),
        gs[c.active@[a] as int].dimension@ != gs[c.active@[b] as int].dimension@,
    ensures
        c.observation is Some,
{
    let dims = baseline::dims_of(gs, baseline::indices_of(c.active@));
    let set = dims.to_set();
    let x = dims[a];
    let y = dims[b];
    assert(dims.contains(x) && dims.contains(y));
    assert(set.contains(x) && set.contains(y));
    vstd::seq_lib::seq_to_set_is_finite(dims);
    assert(set.remove(x).contains(y));
    assert(set.remove(x).remove(y).len() == set.len() - 2);
}

proof fn lemma_first_of_each(gs: Seq<Group>, list: Seq<int>)
    ensures
        ({
            let r = baseline::first_by_dimension(gs, list);
            &&& forall|k: int| 0 <= k < r.len() ==> first_at(gs, list, #[trigger] r[k])
            &&& forall|i: int|
                0 <= i < list.len() ==> baseline::dims_of(gs, r).contains(
                    gs[#[trigger] list[i]].dimension@,
                )
        }),
    decreases list.len(),
{
    if list.len() > 0 {
        let init = list.drop_last();
        lemma_first_of_each(gs, init);
        let q = baseline::first_by_dimension(gs, init);
        let r = baseline::first_by_dimension(gs, list);
        let n = list.len() - 1;
        let d = gs[list.last()].dimension@;
        assert forall|k: int| 0 <= k < q.len() implies first_at(gs, list, #[trigger] q[k]) by {
            assert(first_at(gs, init, q[k]));
            let i = choose|i: int|
                0 <= i < init.len() && #[trigger] init[i] == q[k] && forall|j: int|
                    0 <= j < i ==> gs[#[trigger] init[j]].dimension@ != gs[q[k]].dimension@;
            assert(list[i] == q[k]);
            assert forall|j: int| 0 <= j < i implies gs[#[trigger] list[j]].dimension@
                != gs[q[k]].dimension@ by {
                assert(init[j] == list[j]);
            }
        }
        if !baseline::dims_of(gs, q).contains(d) {
            assert(list[n] == list.last());
            assert forall|j: int| 0 <= j < n implies gs[#[trigger] list[j]].dimension@ != d by {
                assert(init[j] == list[j]);
                assert(baseline::dims_of(gs, q).contains(gs[init[j]].dimension@));
            }
            assert(first_at(gs, list, list.last()));
            assert(baseline::dims_of(gs, r)[q.len() as int] == d);
        }
        assert forall|i: int| 0 <= i < list.len() implies baseline::dims_of(gs, r).contains(
            gs[#[trigger] list[i]].dimension@,
        ) by {
            let e = gs[list[i]].dimension@;
            if i < n {
                assert(init[i] == list[i]);
                assert(baseline::dims_of(gs, q).contains(e));
            }
            if baseline::dims_of(gs, q).contains(e) {
                let k = choose|k: int|
                    0 <= k < baseline::dims_of(gs, q).len() && baseline::dims_of(gs, q)[k] == e;
                assert(baseline::dims_of(gs, r)[k] == e);
            }
        }
    }
}

/// `g` stands in the list, and no group before it has its dimension.
spec fn first_at(gs: Seq<Group>, list: Seq<int>, g: int) -> bool {
    exists|i: int|
        0 <= i < list.len() && #[trigger] list[i] == g && forall|j: int|
            0 <= j < i ==> gs[#[trigger] list[j]].dimension@ != gs[g].dimension@
}

proof fn lemma_class_members(gs: Seq<Group>, list: Seq<int>, c: DayClass, g: int)
    ensures
        baseline::of_class(gs, list, c).contains(g) <==> list.contains(g) && gs[g].day_class == c,
    decreases list.len(),
{
    if list.len() > 0 {
        let init = list.drop_last();
        lemma_class_members(gs, init, c, g);
        let q = baseline::of_class(gs, init, c);
        assert(list[list.len() - 1] == list.last());
        if init.contains(g) {
            let i = choose|i: int| 0 <= i < init.len() && init[i] == g;
            assert(list[i] == g);
        }
        if list.contains(g) && g != list.last() {
            let i = choose|i: int| 0 <= i < list.len() && list[i] == g;
            assert(init[i] == g);
        }
        if gs[list.last()].day_class == c {
            assert(q.push(list.last())[q.len() as int] == list.last());
            if q.contains(g) {
                let i = choose|i: int| 0 <= i < q.len() && q[i] == g;
                assert(q.push(list.last())[i] == g);
            }
        }
    }
}

proof fn lemma_all_classes(gs: Seq<Group>, active: Seq<int>, g: int)
    ensures
        baseline::weekdays_first(gs, active).contains(g) <==> active.contains(g),
{
    let list = baseline::weekdays_first(gs, active);
    let week = baseline::of_class(gs, active, DayClass::Weekday);
    let end = baseline::of_class(gs, active, DayClass::Weekend);
    lemma_class_members(gs, active, DayClass::Weekday, g);
    lemma_class_members(gs, active, DayClass::Weekend, g);
    if week.contains(g) {
        let i = choose|i: int| 0 <= i < week.len() && week[i] == g;
        assert(list[i] == g);
    }
    if end.contains(g) {
        let i = choose|i: int| 0 <= i < end.len() && end[i] == g;
        assert(list[week.len() + i] == g);
    }
    if list.contains(g) {
        let i = choose|i: int| 0 <= i < list.len() && list[i] == g;
        if i < week.len() {
            assert(week[i] == g);
        } else {
            assert(end[i - week.len()] == g);
        }
    }
}

proof fn lemma_spoken_is_active(gs: Seq<Group>, active: Seq<int>, k: int)
    requires
        0 <= k < baseline::spoken_of(gs, active).len(),
    ensures
        active.contains(baseline::spoken_of(gs, active)[k]),
{
    let list = baseline::weekdays_first(gs, active);
    lemma_first_of_each(gs, list);
    let g = baseline::first_by_dimension(gs, list)[k];
    assert(first_at(gs, list, g));
    assert(list.contains(g));
    lemma_all_classes(gs, active, g);
}

proof fn lemma_weekdays_win(gs: Seq<Group>, active: Seq<int>, k: int, a: int)
    requires
        0 <= k < baseline::spoken_of(gs, active).len(),
        active.contains(a),
        gs[baseline::spoken_of(gs, active)[k]].dimension@ == gs[a].dimension@,
        gs[a].day_class == DayClass::Weekday,
    ensures
        gs[baseline::spoken_of(gs, active)[k]].day_class == DayClass::Weekday,
{
    let list = baseline::weekdays_first(gs, active);
    let week = baseline::of_class(gs, active, DayClass::Weekday);
    lemma_first_of_each(gs, list);
    let g = baseline::first_by_dimension(gs, list)[k];
    assert(first_at(gs, list, g));
    let i = choose|i: int|
        0 <= i < list.len() && #[trigger] list[i] == g && forall|j: int|
            0 <= j < i ==> gs[#[trigger] list[j]].dimension@ != gs[g].dimension@;
    lemma_class_members(gs, active, DayClass::Weekday, a);
    let j = choose|j: int| 0 <= j < week.len() && week[j] == a;
    assert(list[j] == a);
    if i < week.len() {
        assert(week[i] == g);
        assert(week.contains(g));
        lemma_class_members(gs, active, DayClass::Weekday, g);
    } else {
        assert(gs[list[j]].dimension@ != gs[g].dimension@);
    }
}

proof fn lemma_nothing_left_out(gs: Seq<Group>, active: Seq<int>, a: int) -> (k: int)
    requires
        baseline::spoken_of(gs, active).len() < 3,
        active.contains(a),
    ensures
        0 <= k < baseline::spoken_of(gs, active).len(),
        gs[baseline::spoken_of(gs, active)[k]].dimension@ == gs[a].dimension@,
{
    let list = baseline::weekdays_first(gs, active);
    let first = baseline::first_by_dimension(gs, list);
    lemma_first_of_each(gs, list);
    lemma_all_classes(gs, active, a);
    let i = choose|i: int| 0 <= i < list.len() && list[i] == a;
    assert(baseline::dims_of(gs, first).contains(gs[list[i]].dimension@));
    choose|k: int|
        0 <= k < baseline::dims_of(gs, first).len() && baseline::dims_of(gs, first)[k]
            == gs[a].dimension@
}

/// What an observation speaks of is active. A dimension that is active on weekdays is spoken of on
/// weekdays. Where it speaks of fewer than three groups, it speaks of every active dimension.
pub proof fn law_what_an_observation_speaks_of(
    gs: Seq<Group>,
    rs: Seq<Reading>,
    existing: Seq<ExistingObservation>,
    as_of: int,
    cfg: Config,
    c: Conclusion,
    a: int,
)
    requires
        baseline::concluded(gs, rs, existing, as_of, cfg, c),
        c.observation is Some,
        baseline::indices_of(c.active@).contains(a),
    ensures
        ({
            let spoken = baseline::indices_of(c.observation->0.groups@);
            &&& spoken.len() <= 3
            &&& forall|k: int|
                0 <= k < spoken.len() ==> baseline::indices_of(c.active@).contains(
                    #[trigger] spoken[k],
                )
            &&& forall|k: int|
                0 <= k < spoken.len() && gs[#[trigger] spoken[k]].dimension@ == gs[a].dimension@
                    && gs[a].day_class == DayClass::Weekday ==> gs[spoken[k]].day_class
                    == DayClass::Weekday
            &&& spoken.len() < 3 ==> exists|k: int|
                0 <= k < spoken.len() && gs[#[trigger] spoken[k]].dimension@ == gs[a].dimension@
        }),
{
    let active = baseline::indices_of(c.active@);
    let spoken = baseline::indices_of(c.observation->0.groups@);
    assert(spoken == baseline::spoken_of(gs, active));
    assert forall|k: int| 0 <= k < spoken.len() implies active.contains(#[trigger] spoken[k]) by {
        lemma_spoken_is_active(gs, active, k);
    }
    assert forall|k: int|
        0 <= k < spoken.len() && gs[#[trigger] spoken[k]].dimension@ == gs[a].dimension@
            && gs[a].day_class == DayClass::Weekday implies gs[spoken[k]].day_class
        == DayClass::Weekday by {
        lemma_weekdays_win(gs, active, k, a);
    }
    if spoken.len() < 3 {
        let k = lemma_nothing_left_out(gs, active, a);
        assert(gs[spoken[k]].dimension@ == gs[a].dimension@);
    }
}

/// An observation never speaks of a group on weekends before one on weekdays, and names the
/// dimensions that it speaks of, and no others.
pub proof fn law_weekends_come_last(
    gs: Seq<Group>,
    rs: Seq<Reading>,
    existing: Seq<ExistingObservation>,
    as_of: int,
    cfg: Config,
    c: Conclusion,
)
    requires
        baseline::concluded(gs, rs, existing, as_of, cfg, c),
        c.observation is Some,
        crate::text::order::ascending(baseline::group_keys(gs)),
    ensures
        ({
            let o = c.observation->0;
            &&& forall|i: int, j: int|
                0 <= i < j < o.groups@.len() && gs[(#[trigger] o.groups@[i]) as int].day_class
                    == DayClass::Weekend ==> gs[(#[trigger] o.groups@[j]) as int].day_class
                    == DayClass::Weekend
            &&& forall|x: Seq<char>| #[trigger]
                pieces::strings(o.dimensions@).contains(x) <==> exists|i: int|
                    0 <= i < o.groups@.len() && gs[(#[trigger] o.groups@[i]) as int].dimension@
                        == x
        }),
{
    let o = c.observation->0;
    let since = as_of - cfg.cooldown_days;
    baseline::law_weekdays_come_first(gs, rs, existing, since);
    let spoken = baseline::indices_of(o.groups@);
    assert forall|i: int, j: int|
        0 <= i < j < o.groups@.len() && gs[(#[trigger] o.groups@[i]) as int].day_class
            == DayClass::Weekend implies gs[(#[trigger] o.groups@[j]) as int].day_class
        == DayClass::Weekend by {
        assert(spoken[i] == o.groups@[i] && spoken[j] == o.groups@[j]);
        assert(baseline::comes_before(gs, spoken[i], spoken[j]));
    }
    let dims = baseline::dims_of(gs, spoken);
    assert forall|x: Seq<char>| #[trigger]
        pieces::strings(o.dimensions@).contains(x) <==> exists|i: int|
            0 <= i < o.groups@.len() && gs[(#[trigger] o.groups@[i]) as int].dimension@ == x by {
        assert(pieces::strings(o.dimensions@).contains(x) <==> dims.contains(x));
        if dims.contains(x) {
            let i = choose|i: int| 0 <= i < dims.len() && dims[i] == x;
            assert(gs[o.groups@[i] as int].dimension@ == x);
        }
        if exists|i: int|
            0 <= i < o.groups@.len() && gs[(#[trigger] o.groups@[i]) as int].dimension@ == x {
            let i = choose|i: int|
                0 <= i < o.groups@.len() && gs[(#[trigger] o.groups@[i]) as int].dimension@ == x;
            assert(dims[i] == x);
        }
    }
}

/// The positions of a median have as many values before the first as behind the second, and are
/// the same or neighbours; only of no values is there no median.
pub proof fn law_the_median_is_in_the_middle(n: nat)
    ensures
        baseline::middle_of(n) is None <==> n == 0,
        baseline::middle_of(n) matches Some((a, b)) ==> a + b == n - 1 && a <= b <= a + 1,
{
}

/// By default the last fourteen days are compared, and the last seven of them, with the four weeks
/// before; two weeks of data are needed, and an observation rests a week. Two dimensions, or ten
/// days of one, make an observation, and no dimension is switched off.
pub proof fn law_the_default_evaluation(as_of: int, cfg: Config, n: int, d: Seq<char>)
    requires
        baseline::is_default(cfg),
        baseline::windows_fit(as_of, cfg),
    ensures
        ({
            let w = baseline::windows_of(as_of, cfg);
            let age = as_of - n;
            &&& baseline::in_span(w, n, Span::Recent) <==> 0 <= age <= 13
            &&& baseline::in_span(w, n, Span::Short) <==> 0 <= age <= 6
            &&& baseline::in_span(w, n, Span::Base) <==> 14 <= age <= 41
        }),
        cfg.warmup_days == 14,
        cfg.cooldown_days == 7,
        cfg.min_dimensions == 2,
        cfg.single_dimension_min_days == 10,
        cfg.min_baseline_samples == 4,
        cfg.min_recent_samples == 3,
        cfg.min_short_samples == 2,
        !pieces::strings(cfg.disabled@).contains(d),
{
    law_windows_by_age(as_of, cfg, n);
}

/// The names of the classes of days.
pub proof fn law_names_of_the_classes(s: Seq<char>)
    ensures
        DayClass::Weekday.name() == "weekday"@,
        DayClass::Weekend.name() == "weekend"@,
        DayClass::named(s) is Some <==> s == "weekday"@ || s == "weekend"@,
{
}

} // verus!
