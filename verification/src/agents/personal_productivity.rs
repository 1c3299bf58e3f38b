//! Personal tasks: the open tasks of the shared store, the tasks and routines the user stated in
//! chat, and how often each was postponed.

use vstd::prelude::*;

use crate::clock::Timestamp;
use crate::domain::Domain;
use crate::memory::item;
use crate::memory::item::ItemView;
use crate::memory::item::Kind;
use crate::memory::item::MemoryItem;
use crate::ranking;
use crate::ranking::Ranked;
use crate::text::chars;
use crate::text::pieces;
use crate::text::scan;

verus! {

/// Where a personal task came from.
pub const SOURCE_STORE: &'static str = "tasks";

pub const SOURCE_MEMORY: &'static str = "memory";

/// An open task of the store, due-soonest first.
pub struct StoreTask {
    pub id: String,
    pub title: String,
    pub postponed_count: i64,
    pub due: Option<Timestamp>,
}

pub struct PersonalTask {
    /// Task id for store-backed tasks; the memory key for chat-stated ones.
    pub key: String,
    pub title: String,
    pub postponed: usize,
    pub known: bool,
    /// Due date for store-backed tasks; chat-stated tasks are undated.
    pub due: Option<Timestamp>,
    /// [`SOURCE_STORE`] or [`SOURCE_MEMORY`].
    pub source: &'static str,
}

#[verifier::ext_equal]
pub struct TaskView {
    pub key: Seq<char>,
    pub title: Seq<char>,
    pub postponed: nat,
    pub known: bool,
    pub due: Option<Timestamp>,
    pub source: Seq<char>,
}

impl View for PersonalTask {
    type V = TaskView;

    open spec fn view(&self) -> TaskView {
        TaskView {
            key: self.key@,
            title: self.title@,
            postponed: self.postponed as nat,
            known: self.known,
            due: self.due,
            source: self.source@,
        }
    }
}

pub open spec fn tasks_of(v: Seq<PersonalTask>) -> Seq<TaskView> {
    v.map_values(|t: PersonalTask| t@)
}

pub struct PersonalFacts {
    pub tasks: Vec<PersonalTask>,
    pub postponed_total: usize,
    pub routines: Vec<String>,
}

/// A task of the store; a count below zero, or one that does not fit, counts for nothing.
pub open spec fn of_store(t: StoreTask) -> TaskView {
    TaskView {
        key: t.id@,
        title: t.title@,
        postponed: if 0 <= t.postponed_count <= usize::MAX {
            t.postponed_count as nat
        } else {
            0
        },
        known: true,
        due: t.due,
        source: SOURCE_STORE@,
    }
}

/// How often `h` is among the hashes.
pub open spec fn occurrences(hashes: Seq<Option<String>>, h: Seq<char>) -> nat
    decreases hashes.len(),
{
    if hashes.len() == 0 {
        0
    } else {
        occurrences(hashes.drop_last(), h) + (if pieces::text_in(hashes.last()) == Some(h) {
            1nat
        } else {
            0
        })
    }
}

pub open spec fn title_of(i: ItemView) -> Seq<char> {
    match i.text {
        Some(t) => t,
        None => i.rendered,
    }
}

pub open spec fn is_task(i: ItemView) -> bool {
    scan::starts(i.key, "task."@)
}

/// A task stated in chat, with the hash of its key, by which postponements are kept.
pub open spec fn of_memory(i: ItemView, hash: Seq<char>, postponed: Seq<Option<String>>) -> TaskView {
    TaskView {
        key: i.key,
        title: title_of(i),
        postponed: occurrences(postponed, hash),
        known: i.kind == Kind::Known,
        due: None,
        source: SOURCE_MEMORY@,
    }
}

/// The tasks of the store.
pub open spec fn store_tasks(ts: Seq<StoreTask>) -> Seq<TaskView> {
    ts.map_values(|t: StoreTask| of_store(t))
}

pub open spec fn memory_tasks(
    items: Seq<ItemView>,
    hashes: Seq<Seq<char>>,
    postponed: Seq<Option<String>>,
) -> Seq<TaskView>
    decreases items.len(),
{
    if items.len() == 0 {
        Seq::empty()
    } else {
        let before = memory_tasks(items.drop_last(), hashes.drop_last(), postponed);
        if is_task(items.last()) {
            before.push(of_memory(items.last(), hashes.last(), postponed))
        } else {
            before
        }
    }
}

/// What is stated and no task is a routine, where it is not of the world of work.
pub open spec fn routines_in(items: Seq<ItemView>) -> Seq<Seq<char>>
    decreases items.len(),
{
    if items.len() == 0 {
        Seq::empty()
    } else {
        let before = routines_in(items.drop_last());
        let i = items.last();
        if !is_task(i) && (i.domain == Domain::Home || i.domain == Domain::Shared) {
            before.push(title_of(i))
        } else {
            before
        }
    }
}

pub open spec fn total(ts: Seq<TaskView>) -> nat
    decreases ts.len(),
{
    if ts.len() == 0 {
        0
    } else {
        total(ts.drop_last()) + ts.last().postponed
    }
}

/// All tasks, the store's before those stated in chat.
pub open spec fn all_tasks(
    ts: Seq<StoreTask>,
    items: Seq<ItemView>,
    hashes: Seq<Seq<char>>,
    postponed: Seq<Option<String>>,
) -> Seq<TaskView> {
    store_tasks(ts) + memory_tasks(items, hashes, postponed)
}

/// Most postponed first; ties keep their order.
pub open spec fn most_postponed_first(ts: Seq<TaskView>) -> Seq<TaskView> {
    ranking::sorted_by(ts, |t: TaskView| -(t.postponed as int))
}

fn count_hash(hashes: &Vec<Option<String>>, h: &str) -> (r: usize)
    ensures
        r == occurrences(hashes@, h@),
{
    let mut n: usize = 0;
    let mut i: usize = 0;
    assert(hashes@.take(0) =~= Seq::empty());
    while i < hashes.len()
        invariant
            i <= hashes.len(),
            n <= i,
            n == occurrences(hashes@.take(i as int), h@),
        decreases hashes.len() - i,
    {
        assert(hashes@.take(i + 1).drop_last() =~= hashes@.take(i as int));
        let hit = match &hashes[i] {
            Some(x) => chars::same(x.as_str(), h),
            None => false,
        };
        if hit {
            n += 1;
        }
        i += 1;
    }
    assert(hashes@.take(hashes.len() as int) =~= hashes@);
    n
}

fn from_store(t: &StoreTask) -> (r: PersonalTask)
    ensures
        r@ == of_store(*t),
{
    let postponed: usize = if t.postponed_count >= 0 && t.postponed_count as u64
        <= usize::MAX as u64 {
        t.postponed_count as usize
    } else {
        0
    };
    PersonalTask {
        key: t.id.clone(),
        title: t.title.clone(),
        postponed,
        known: true,
        due: t.due,
        source: SOURCE_STORE,
    }
}

fn title(i: &MemoryItem) -> (r: String)
    ensures
        r@ == title_of(i@),
{
    match &i.text {
        Some(t) => t.clone(),
        None => i.rendered.clone(),
    }
}

proof fn lemma_total_push(ts: Seq<TaskView>, t: TaskView)
    ensures
        total(ts.push(t)) == total(ts) + t.postponed,
{
    assert(ts.push(t).drop_last() =~= ts);
}

proof fn lemma_total_prefix(a: Seq<TaskView>, b: Seq<TaskView>)
    ensures
        total(a) <= total(a + b),
    decreases b.len(),
{
    if b.len() == 0 {
        assert(a + b =~= a);
    } else {
        lemma_total_prefix(a, b.drop_last());
        assert((a + b).drop_last() =~= a + b.drop_last());
    }
}

proof fn lemma_memory_prefix(
    items: Seq<ItemView>,
    hashes: Seq<Seq<char>>,
    postponed: Seq<Option<String>>,
    n: int,
)
    requires
        items.len() == hashes.len(),
        0 <= n <= items.len(),
    ensures
        exists|rest: Seq<TaskView>|
            memory_tasks(items, hashes, postponed) == #[trigger] (memory_tasks(
                items.take(n),
                hashes.take(n),
                postponed,
            ) + rest),
    decreases items.len() - n,
{
    if n == items.len() {
        assert(items.take(n) =~= items);
        assert(hashes.take(n) =~= hashes);
        let whole = memory_tasks(items, hashes, postponed);
        assert(whole =~= whole + Seq::empty());
    } else {
        lemma_memory_prefix(items, hashes, postponed, n + 1);
        let a = memory_tasks(items.take(n), hashes.take(n), postponed);
        let b = memory_tasks(items.take(n + 1), hashes.take(n + 1), postponed);
        assert(items.take(n + 1).drop_last() =~= items.take(n));
        assert(hashes.take(n + 1).drop_last() =~= hashes.take(n));
        let rest = choose|rest: Seq<TaskView>|
            memory_tasks(items, hashes, postponed) == #[trigger] (b + rest);
        if b.len() == a.len() {
            assert(b == a);
        } else {
            assert(b + rest =~= a + (seq![b.last()] + rest));
        }
    }
}

fn sort_tasks(list: Vec<PersonalTask>) -> (r: Vec<PersonalTask>)
    ensures
        tasks_of(r@) == most_postponed_first(tasks_of(list@)),
{
    let mut ranks: Vec<i128> = Vec::new();
    let mut i: usize = 0;
    while i < list.len()
        invariant
            i <= list.len(),
            ranks@.len() == i,
            forall|k: int| 0 <= k < i ==> #[trigger] ranks@[k] == -(list@[k].postponed as int),
        decreases list.len() - i,
    {
        ranks.push(-(list[i].postponed as i128));
        i += 1;
    }
    let ghost s = ranking::zipped(list@, ranks@);
    let ghost all = list@;
    let r = ranking::sort_items(list, &ranks);
    proof {
        let f = |x: Ranked<PersonalTask>| x.item@;
        let kept = |t: TaskView| -(t.postponed as int);
        ranking::lemma_sorted_map(s, ranking::rank_of(), f, kept);
        assert(s.map_values(f) =~= tasks_of(all));
        assert(tasks_of(r@) =~= ranking::sorted_by(s, ranking::rank_of()).map_values(f));
    }
    r
}

/// The user's personal tasks and routines. `open` are the open tasks of the store that the world
/// of home sees, `items` the tasks and routines stated in chat, `hashes` the hash of each item's
/// key, and `postponed` the hashes that the ledger keeps of what was postponed.
pub fn facts(
    open: &Vec<StoreTask>,
    items: &Vec<MemoryItem>,
    hashes: &Vec<String>,
    postponed: &Vec<Option<String>>,
) -> (r: PersonalFacts)
    requires
        items@.len() == hashes@.len(),
        total(
            all_tasks(open@, item::items_of(items@), pieces::strings(hashes@), postponed@),
        ) <= usize::MAX,
    ensures
        ({
            let all = all_tasks(
                open@,
                item::items_of(items@),
                pieces::strings(hashes@),
                postponed@,
            );
            &&& tasks_of(r.tasks@) == most_postponed_first(all)
            &&& r.postponed_total == total(all)
            &&& pieces::strings(r.routines@) == routines_in(item::items_of(items@))
        }),
{
    let ghost is = item::items_of(items@);
    let ghost hs = pieces::strings(hashes@);
    let ghost all = all_tasks(open@, is, hs, postponed@);
    let ghost base = store_tasks(open@);
    let mut tasks: Vec<PersonalTask> = Vec::new();
    let mut sum: usize = 0;
    let mut i: usize = 0;
    assert(base.take(0) =~= Seq::empty());
    while i < open.len()
        invariant
            i <= open.len(),
            base == store_tasks(open@),
            all == base + memory_tasks(is, hs, postponed@),
            total(all) <= usize::MAX,
            tasks_of(tasks@) == base.take(i as int),
            sum == total(base.take(i as int)),
        decreases open.len() - i,
    {
        let t = from_store(&open[i]);
        proof {
            assert(base.take(i + 1) =~= base.take(i as int).push(t@));
            lemma_total_push(base.take(i as int), t@);
            lemma_total_prefix(
                base.take(i + 1),
                base.skip(i + 1) + memory_tasks(is, hs, postponed@),
            );
            assert(base.take(i + 1) + (base.skip(i + 1) + memory_tasks(is, hs, postponed@))
                =~= all);
        }
        sum += t.postponed;
        let ghost o = tasks@;
        tasks.push(t);
        assert(tasks_of(tasks@) =~= tasks_of(o).push(t@));
        i += 1;
    }
    assert(base.take(open.len() as int) =~= base);
    let mut routines: Vec<String> = Vec::new();
    let mut k: usize = 0;
    assert(is.take(0) =~= Seq::empty());
    assert(base + memory_tasks(is.take(0), hs.take(0), postponed@) =~= base);
    assert(pieces::strings(routines@) =~= routines_in(is.take(0)));
    while k < items.len()
        invariant
            k <= items.len(),
            items@.len() == hashes@.len(),
            is == item::items_of(items@),
            hs == pieces::strings(hashes@),
            all == base + memory_tasks(is, hs, postponed@),
            total(all) <= usize::MAX,
            tasks_of(tasks@) == base + memory_tasks(
                is.take(k as int),
                hs.take(k as int),
                postponed@,
            ),
            sum == total(tasks_of(tasks@)),
            pieces::strings(routines@) == routines_in(is.take(k as int)),
        decreases items.len() - k,
    {
        assert(is.take(k + 1).drop_last() =~= is.take(k as int));
        assert(hs.take(k + 1).drop_last() =~= hs.take(k as int));
        assert(is.take(k + 1).last() == items@[k as int]@);
        assert(hs.take(k + 1).last() == hashes@[k as int]@);
        let i = &items[k];
        let name = title(i);
        if scan::starts_with(&chars::chars_of(i.key.as_str()), "task.") {
            let n = count_hash(postponed, hashes[k].as_str());
            let t = PersonalTask {
                key: i.key.clone(),
                title: name,
                postponed: n,
                known: i.kind == Kind::Known,
                due: None,
                source: SOURCE_MEMORY,
            };
            assert(t@ == of_memory(i@, hashes@[k as int]@, postponed@));
            let ghost o = tasks@;
            proof {
                lemma_memory_prefix(is, hs, postponed@, k + 1);
                let m = memory_tasks(is.take(k + 1), hs.take(k + 1), postponed@);
                let rest = choose|rest: Seq<TaskView>|
                    memory_tasks(is, hs, postponed@) == #[trigger] (m + rest);
                assert(all =~= (base + m) + rest);
                lemma_total_prefix(base + m, rest);
                lemma_total_push(tasks_of(o), t@);
                assert(tasks_of(o).push(t@) =~= base + m);
            }
            sum += n;
            tasks.push(t);
            assert(tasks_of(tasks@) =~= tasks_of(o).push(t@));
        } else if i.domain == Domain::Home || i.domain == Domain::Shared {
            let ghost o = routines@;
            routines.push(name);
            assert(pieces::strings(routines@) =~= pieces::strings(o).push(name@));
        }
        k += 1;
    }
    assert(is.take(items.len() as int) =~= is);
    assert(hs.take(items.len() as int) =~= hs);
    PersonalFacts { tasks: sort_tasks(tasks), postponed_total: sum, routines }
}

/// The most postponed tasks come first, none is lost or added, and those that were postponed as
/// often keep their order.
pub proof fn law_most_postponed_first(ts: Seq<TaskView>, n: nat)
    ensures
        forall|i: int, j: int|
            0 <= i < j < most_postponed_first(ts).len() ==> (#[trigger] most_postponed_first(
                ts,
            )[i]).postponed >= (#[trigger] most_postponed_first(ts)[j]).postponed,
        most_postponed_first(ts).to_multiset() == ts.to_multiset(),
        ranking::with_rank(
            most_postponed_first(ts),
            |t: TaskView| -(t.postponed as int),
            -(n as int),
        ) == ranking::with_rank(ts, |t: TaskView| -(t.postponed as int), -(n as int)),
{
    let key = |t: TaskView| -(t.postponed as int);
    let r = most_postponed_first(ts);
    ranking::law_sorted(ts, key);
    ranking::law_sorted_is_stable(ts, key, -(n as int));
    assert forall|i: int, j: int| 0 <= i < j < r.len() implies (#[trigger] r[i]).postponed >= (
    #[trigger] r[j]).postponed by {
        assert(key(r[i]) <= key(r[j]));
    }
}

/// A task of the store is known, with its own due date and title; how often it was postponed counts
/// where it is a count.
pub proof fn law_tasks_of_the_store(ts: Seq<StoreTask>, i: int)
    requires
        0 <= i < ts.len(),
    ensures
        ({
            let t = store_tasks(ts)[i];
            &&& store_tasks(ts).len() == ts.len()
            &&& t.key == ts[i].id@
            &&& t.title == ts[i].title@
            &&& t.known
            &&& t.due == ts[i].due
            &&& t.source == "tasks"@
            &&& ts[i].postponed_count < 0 ==> t.postponed == 0
            &&& 0 <= ts[i].postponed_count <= usize::MAX ==> t.postponed == ts[i].postponed_count
        }),
{
}

/// What is stated under `task.` is a task, without a due date, known where it was told and not only
/// assumed, and postponed as often as its hash is among those postponed; what is stated under
/// another key is none.
pub proof fn law_tasks_of_memory(
    items: Seq<ItemView>,
    hashes: Seq<Seq<char>>,
    postponed: Seq<Option<String>>,
    i: ItemView,
    hash: Seq<char>,
)
    ensures
        ({
            let before = memory_tasks(items, hashes, postponed);
            let after = memory_tasks(items.push(i), hashes.push(hash), postponed);
            let title = if i.text is Some {
                i.text->0
            } else {
                i.rendered
            };
            &&& scan::starts(i.key, "task."@) ==> after == before.push(
                TaskView {
                    key: i.key,
                    title,
                    postponed: postponed.filter(
                        |h: Option<String>| h is Some && h->0@ == hash,
                    ).len(),
                    known: i.kind == Kind::Known,
                    due: None,
                    source: "memory"@,
                },
            )
            &&& !scan::starts(i.key, "task."@) ==> after == before
            &&& memory_tasks(Seq::empty(), Seq::empty(), postponed).len() == 0
        }),
{
    assert(items.push(i).drop_last() =~= items);
    assert(hashes.push(hash).drop_last() =~= hashes);
    lemma_occurrences(postponed, hash);
}

proof fn lemma_occurrences(hashes: Seq<Option<String>>, h: Seq<char>)
    ensures
        occurrences(hashes, h) == hashes.filter(
            |x: Option<String>| x is Some && x->0@ == h,
        ).len(),
    decreases hashes.len(),
{
    reveal(Seq::filter);
    if hashes.len() > 0 {
        lemma_occurrences(hashes.drop_last(), h);
    }
}

/// What is stated and no task is a routine, by its text or else its value, unless it is of work.
pub proof fn law_what_is_a_routine(items: Seq<ItemView>, i: ItemView)
    ensures
        ({
            let before = routines_in(items);
            let after = routines_in(items.push(i));
            let title = if i.text is Some {
                i.text->0
            } else {
                i.rendered
            };
            &&& !scan::starts(i.key, "task."@) && i.domain != Domain::Work ==> after
                == before.push(title)
            &&& scan::starts(i.key, "task."@) || i.domain == Domain::Work ==> after == before
            &&& routines_in(Seq::<ItemView>::empty()).len() == 0
        }),
{
    assert(items.push(i).drop_last() =~= items);
}

/// The total of the postponements is that of all tasks, of the store and of memory.
pub proof fn law_postponements_are_totalled(ts: Seq<TaskView>, t: TaskView)
    ensures
        total(ts.push(t)) == total(ts) + t.postponed,
        total(Seq::<TaskView>::empty()) == 0,
{
    assert(ts.push(t).drop_last() =~= ts);
}

/// The tasks of the store stand before those of memory.
pub proof fn law_store_before_memory(
    ts: Seq<StoreTask>,
    items: Seq<ItemView>,
    hashes: Seq<Seq<char>>,
    postponed: Seq<Option<String>>,
)
    ensures
        all_tasks(ts, items, hashes, postponed).take(ts.len() as int) == store_tasks(ts),
        all_tasks(ts, items, hashes, postponed).skip(ts.len() as int) == memory_tasks(
            items,
            hashes,
            postponed,
        ),
{
    let all = all_tasks(ts, items, hashes, postponed);
    assert(all.take(ts.len() as int) =~= store_tasks(ts));
    assert(all.skip(ts.len() as int) =~= memory_tasks(items, hashes, postponed));
}

} // verus!
