//! Day-files: the lines stored under one calendar date, and the positions of
//! the entries among them.

use crate::date::Date;
use crate::entries::cross_day_views;
use crate::entries::line_views;
use crate::entries::CrossDayEntry;
use crate::entries::CrossDayEntryView;
use crate::entries::Entry;
use crate::entries::EntryView;
use crate::entries::Line;
use crate::entries::LineView;
use vstd::prelude::*;

verus! {

/// The positions of the entries in a line sequence, in document order.
pub open spec fn entry_positions(lines: Seq<LineView>) -> Seq<int>
    decreases lines.len(),
{
    if lines.len() == 0 {
        Seq::<int>::empty()
    } else if lines.last() is Entry {
        entry_positions(lines.drop_last()).push(lines.len() - 1)
    } else {
        entry_positions(lines.drop_last())
    }
}

/// A sequence of machine indices as mathematical positions.
pub open spec fn as_positions(indices: Seq<usize>) -> Seq<int> {
    Seq::new(indices.len(), |i: int| indices[i] as int)
}

/// The entry positions are exactly the positions that hold an entry: each of
/// them holds one, none is left out, and they ascend.
pub proof fn lemma_entry_positions_exact(lines: Seq<LineView>)
    ensures
        entry_positions(lines).len() <= lines.len(),
        forall|k: int|
            0 <= k < entry_positions(lines).len() ==> 0 <= (#[trigger] entry_positions(lines)[k])
                < lines.len() && lines[entry_positions(lines)[k]] is Entry,
        forall|i: int|
            0 <= i < lines.len() && (#[trigger] lines[i]) is Entry ==> entry_positions(
                lines,
            ).contains(i),
        forall|j: int, k: int|
            0 <= j < k < entry_positions(lines).len() ==> entry_positions(lines)[j]
                < entry_positions(lines)[k],
    decreases lines.len(),
{
    if lines.len() > 0 {
        let init = lines.drop_last();
        let got = entry_positions(lines);
        lemma_entry_positions_exact(init);
        assert forall|i: int| 0 <= i < lines.len() && (#[trigger] lines[i]) is Entry implies got.contains(
            i,
        ) by {
            if i < lines.len() - 1 {
                assert(init[i] is Entry);
                let k = choose|k: int|
                    0 <= k < entry_positions(init).len() && entry_positions(init)[k] == i;
                assert(got[k] == i);
            } else {
                assert(got[got.len() - 1] == i);
            }
        }
    }
}

/// A position is an entry position exactly if it holds an entry.
pub proof fn lemma_entry_positions_member(lines: Seq<LineView>, p: int)
    ensures
        entry_positions(lines).contains(p) <==> 0 <= p < lines.len() && lines[p] is Entry,
{
    lemma_entry_positions_exact(lines);
    if entry_positions(lines).contains(p) {
        let k = choose|k: int| 0 <= k < entry_positions(lines).len() && entry_positions(lines)[k] == p;
        assert(lines[entry_positions(lines)[k]] is Entry);
    }
}

/// No stale positions after a removal: the entry positions of the lines
/// without the line at `at` are the old ones before `at` as they were, and the
/// old ones behind `at` one lower.
pub proof fn lemma_entry_positions_after_remove(lines: Seq<LineView>, at: int, p: int)
    requires
        0 <= at < lines.len(),
    ensures
        entry_positions(lines.remove(at)).contains(p) <==> if p < at {
            entry_positions(lines).contains(p)
        } else {
            entry_positions(lines).contains(p + 1)
        },
{
    lemma_entry_positions_member(lines.remove(at), p);
    lemma_entry_positions_member(lines, p);
    lemma_entry_positions_member(lines, p + 1);
}

/// No stale positions after an insertion: the entry positions of the lines
/// with `line` put in at `at` are the old ones before `at` as they were, the
/// old ones from `at` on one higher, and `at` itself where `line` is an entry.
pub proof fn lemma_entry_positions_after_insert(
    lines: Seq<LineView>,
    at: int,
    line: LineView,
    p: int,
)
    requires
        0 <= at <= lines.len(),
    ensures
        entry_positions(lines.insert(at, line)).contains(p) <==> if p < at {
            entry_positions(lines).contains(p)
        } else if p == at {
            line is Entry
        } else {
            entry_positions(lines).contains(p - 1)
        },
{
    lemma_entry_positions_member(lines.insert(at, line), p);
    lemma_entry_positions_member(lines, p);
    lemma_entry_positions_member(lines, p - 1);
}

/// The positions of the entries of `lines`, in document order.  The result is
/// computed from the lines alone, so it is the same however often it is asked
/// for, and after a change to the lines it speaks of the lines as they are.
pub fn compute_entry_indices(lines: &[Line]) -> (indices: Vec<usize>)
    ensures
        as_positions(indices@) == entry_positions(line_views(lines@)),
{
    let mut indices: Vec<usize> = Vec::new();
    let mut i: usize = 0;
    while i < lines.len()
        invariant
            i <= lines.len(),
            as_positions(indices@) == entry_positions(line_views(lines@).take(i as int)),
        decreases lines.len() - i,
    {
        let ghost before = as_positions(indices@);
        match &lines[i] {
            Line::Entry(_) => {
                indices.push(i);
            },
            Line::Raw(_) => {},
        }
        i += 1;
        proof {
            let seen = line_views(lines@).take(i as int);
            assert(seen.drop_last() =~= line_views(lines@).take(i - 1));
            assert(seen.last() == lines@[i - 1]@);
            if lines@[i - 1] is Entry {
                assert(as_positions(indices@) =~= before.push(i - 1));
            }
        }
    }
    proof {
        assert(line_views(lines@).take(lines.len() as int) =~= line_views(lines@));
    }
    indices
}

/// The lines stored under one calendar date.
#[derive(Debug, PartialEq)]
pub struct DayFile {
    pub date: Date,
    pub lines: Vec<Line>,
}

/// What a [`DayFile`] holds, as mathematics.
pub struct DayFileView {
    pub date: Date,
    pub lines: Seq<LineView>,
}

impl View for DayFile {
    type V = DayFileView;

    open spec fn view(&self) -> DayFileView {
        DayFileView { date: self.date, lines: line_views(self.lines@) }
    }
}

/// The views of a sequence of day-files.
pub open spec fn day_views(days: Seq<DayFile>) -> Seq<DayFileView> {
    Seq::new(days.len(), |i: int| days[i]@)
}

// ---------------------------------------------------------------------------
// The order of days
// ---------------------------------------------------------------------------

/// The dates of a sequence of day-files.
pub open spec fn dates_of(days: Seq<DayFileView>) -> Seq<Date> {
    Seq::new(days.len(), |i: int| days[i].date)
}

/// Every day-file is stored under a day that exists.
pub open spec fn days_valid(days: Seq<DayFileView>) -> bool {
    forall|i: int| 0 <= i < days.len() ==> (#[trigger] days[i]).date.valid()
}

/// Where index `i` goes into `order`, a list of indices into `dates` in
/// ascending order of date: behind every index whose date is not later.
pub open spec fn insertion_point(order: Seq<int>, dates: Seq<Date>, i: int) -> int
    decreases order.len(),
{
    if order.len() > 0 && dates[i].precedes(dates[order.last()]) {
        insertion_point(order.drop_last(), dates, i)
    } else {
        order.len() as int
    }
}

/// The first `n` indices into `dates`, ordered by date ascending; indices of
/// equal date keep the order in which they stand in `dates`.
pub open spec fn date_order(dates: Seq<Date>, n: nat) -> Seq<int>
    decreases n,
{
    if n == 0 {
        Seq::<int>::empty()
    } else {
        let before = date_order(dates, (n - 1) as nat);
        before.insert(insertion_point(before, dates, n - 1), n - 1)
    }
}

/// The insertion point lies inside the order; what stands before it is not
/// later than the new date, and what stands from it on is later.
pub proof fn lemma_insertion_point(order: Seq<int>, dates: Seq<Date>, i: int)
    ensures
        0 <= insertion_point(order, dates, i) <= order.len(),
        forall|k: int|
            insertion_point(order, dates, i) <= k < order.len() ==> dates[i].precedes(
                dates[#[trigger] order[k]],
            ),
        insertion_point(order, dates, i) > 0 ==> !dates[i].precedes(
            dates[order[insertion_point(order, dates, i) - 1]],
        ),
    decreases order.len(),
{
    if order.len() > 0 && dates[i].precedes(dates[order.last()]) {
        let init = order.drop_last();
        lemma_insertion_point(init, dates, i);
        let p = insertion_point(order, dates, i);
        assert forall|k: int| p <= k < order.len() implies dates[i].precedes(
            dates[#[trigger] order[k]],
        ) by {
            if k < order.len() - 1 {
                assert(order[k] == init[k]);
            }
        }
        if p > 0 {
            assert(order[p - 1] == init[p - 1]);
        }
    }
}

/// The order of days holds each of the first `n` indices, and ascends by date.
pub proof fn lemma_date_order(dates: Seq<Date>, n: nat)
    requires
        n <= dates.len(),
    ensures
        date_order(dates, n).len() == n,
        forall|k: int| 0 <= k < n ==> 0 <= (#[trigger] date_order(dates, n)[k]) < n,
        forall|i: int| 0 <= i < n ==> date_order(dates, n).contains(i),
        forall|j: int, k: int|
            0 <= j < k < n ==> !dates[date_order(dates, n)[k]].precedes(
                dates[date_order(dates, n)[j]],
            ),
        forall|j: int, k: int|
            0 <= j < k < n && dates[date_order(dates, n)[j]] == dates[date_order(dates, n)[k]]
                ==> date_order(dates, n)[j] < date_order(dates, n)[k],
    decreases n,
{
    if n > 0 {
        let before = date_order(dates, (n - 1) as nat);
        let p = insertion_point(before, dates, n - 1);
        let now = date_order(dates, n);
        lemma_date_order(dates, (n - 1) as nat);
        lemma_insertion_point(before, dates, n - 1);
        assert forall|i: int| 0 <= i < n implies now.contains(i) by {
            if i == n - 1 {
                assert(now[p] == i);
            } else {
                assert(before.contains(i));
                let k = choose|k: int| 0 <= k < before.len() && before[k] == i;
                if k < p {
                    assert(now[k] == i);
                } else {
                    assert(now[k + 1] == i);
                }
            }
        }
        assert forall|j: int, k: int| 0 <= j < k < n implies !dates[now[k]].precedes(
            dates[now[j]],
        ) by {
            let a = if j < p {
                j
            } else {
                j - 1
            };
            let b = if k < p {
                k
            } else {
                k - 1
            };
            if k == p {
                // what stands before the insertion point is not later than the new date
                if j == p - 1 {
                } else {
                    assert(!dates[before[p - 1]].precedes(dates[before[j]]));
                }
            } else if j == p {
                assert(dates[n - 1].precedes(dates[before[b]]));
            } else {
                assert(!dates[before[b]].precedes(dates[before[a]]));
            }
        }
        assert forall|j: int, k: int|
            0 <= j < k < n && dates[now[j]] == dates[now[k]] implies now[j] < now[k] by {
            if k == p {
            } else if j == p {
                let b = k - 1;
                assert(dates[n - 1].precedes(dates[before[b]]));
            } else {
                let a = if j < p {
                    j
                } else {
                    j - 1
                };
                let b = if k < p {
                    k
                } else {
                    k - 1
                };
                assert(before[a] < before[b]);
            }
        }
    }
}

/// The indices of `days` by date ascending, days of equal date in the order
/// given: computes [`date_order`].
pub fn order_by_date(days: &Vec<DayFile>) -> (order: Vec<usize>)
    ensures
        as_positions(order@) == date_order(dates_of(day_views(days@)), days@.len()),
        order@.len() == days@.len(),
        forall|k: int| 0 <= k < order@.len() ==> (#[trigger] order@[k]) < days@.len(),
{
    let ghost dates = dates_of(day_views(days@));
    let mut order: Vec<usize> = Vec::new();
    let mut n: usize = 0;
    while n < days.len()
        invariant
            n <= days.len(),
            dates == dates_of(day_views(days@)),
            as_positions(order@) == date_order(dates, n as nat),
            order@.len() == n,
            forall|k: int| 0 <= k < order@.len() ==> (#[trigger] order@[k]) < n,
        decreases days.len() - n,
    {
        let ghost before = as_positions(order@);
        let mut p: usize = order.len();
        proof {
            assert(before.take(p as int) =~= before);
        }
        while p > 0 && days[n].date.is_before(&days[order[p - 1]].date)
            invariant
                p <= order.len(),
                n < days.len(),
                order@.len() == n,
                before == as_positions(order@),
                dates == dates_of(day_views(days@)),
                forall|k: int| 0 <= k < order@.len() ==> (#[trigger] order@[k]) < n,
                insertion_point(before, dates, n as int) == insertion_point(
                    before.take(p as int),
                    dates,
                    n as int,
                ),
            decreases p,
        {
            proof {
                let cut = before.take(p as int);
                assert(cut.last() == order@[p - 1]);
                assert(cut.drop_last() =~= before.take(p - 1));
                assert(dates[order@[p - 1] as int] == days@[order@[p - 1] as int].date);
            }
            p -= 1;
        }
        proof {
            let cut = before.take(p as int);
            if p > 0 {
                assert(cut.last() == order@[p - 1]);
                assert(dates[order@[p - 1] as int] == days@[order@[p - 1] as int].date);
            }
            assert(insertion_point(cut, dates, n as int) == p);
            assert(before.take(before.len() as int) =~= before);
        }
        order.insert(p, n);
        proof {
            assert(as_positions(order@) =~= before.insert(p as int, n as int));
        }
        n += 1;
    }
    order
}

// ---------------------------------------------------------------------------
// Selecting entries across days
// ---------------------------------------------------------------------------

/// A condition on the entries of a journal, each seen with the day it is
/// stored under.
pub trait EntryPredicate {
    /// The dates that the condition itself holds name days that exist.
    spec fn ready(&self) -> bool;

    /// The condition holds of entry `e` stored under `date`.
    spec fn holds(&self, date: Date, e: EntryView) -> bool;

    /// Decides [`EntryPredicate::holds`].
    fn test(&self, date: &Date, e: &Entry) -> (r: bool)
        requires
            self.ready(),
            date.valid(),
        ensures
            r == self.holds(*date, e@),
    ;
}

/// The entry `e`, which stands at position `index` of the day `date`, as it is
/// shown away from its day.
pub open spec fn cross_day(date: Date, index: int, e: EntryView) -> CrossDayEntryView {
    CrossDayEntryView {
        source_date: date,
        line_index: index,
        content: e.content,
        entry_type: e.entry_type,
        completed: e.entry_type.is_completed(),
    }
}

/// The entries among `lines`, stored under `date`, of which `p` holds, in
/// document order.
pub open spec fn selected_lines<P: EntryPredicate>(date: Date, lines: Seq<LineView>, p: P) -> Seq<
    CrossDayEntryView,
>
    decreases lines.len(),
{
    if lines.len() == 0 {
        Seq::<CrossDayEntryView>::empty()
    } else {
        let before = selected_lines(date, lines.drop_last(), p);
        match lines.last() {
            LineView::Entry(e) => if p.holds(date, e) {
                before.push(cross_day(date, lines.len() - 1, e))
            } else {
                before
            },
            LineView::Raw(_) => before,
        }
    }
}

/// The entries of which `p` holds in the days that `order` lists, day after
/// day.
pub open spec fn selected_days<P: EntryPredicate>(
    days: Seq<DayFileView>,
    order: Seq<int>,
    p: P,
) -> Seq<CrossDayEntryView>
    decreases order.len(),
{
    if order.len() == 0 {
        Seq::<CrossDayEntryView>::empty()
    } else {
        selected_days(days, order.drop_last(), p) + selected_lines(
            days[order.last()].date,
            days[order.last()].lines,
            p,
        )
    }
}

/// Every entry of the journal of which `p` holds: by source date ascending,
/// and within a day in document order.
pub open spec fn selected<P: EntryPredicate>(days: Seq<DayFileView>, p: P) -> Seq<
    CrossDayEntryView,
> {
    selected_days(days, date_order(dates_of(days), days.len()), p)
}

/// The entry at position `i` of the day at position `d` is selected by `p`,
/// and `found` is what is shown of it.
pub open spec fn shows<P: EntryPredicate>(
    days: Seq<DayFileView>,
    p: P,
    d: int,
    i: int,
    found: CrossDayEntryView,
) -> bool {
    &&& 0 <= d < days.len()
    &&& 0 <= i < days[d].lines.len()
    &&& days[d].lines[i] is Entry
    &&& p.holds(days[d].date, days[d].lines[i]->Entry_0)
    &&& found == cross_day(days[d].date, i, days[d].lines[i]->Entry_0)
}

/// What is selected from the lines of one day: each item shows an entry of
/// the day of which `p` holds, at the line where it is stored; no such entry
/// is left out; and the items come in document order.
pub proof fn lemma_selected_lines<P: EntryPredicate>(date: Date, lines: Seq<LineView>, p: P)
    ensures
        forall|k: int|
            0 <= k < selected_lines(date, lines, p).len() ==> {
                let found = #[trigger] selected_lines(date, lines, p)[k];
                &&& found.source_date == date
                &&& 0 <= found.line_index < lines.len()
                &&& lines[found.line_index] is Entry
                &&& p.holds(date, lines[found.line_index]->Entry_0)
                &&& found == cross_day(date, found.line_index, lines[found.line_index]->Entry_0)
            },
        forall|i: int|
            0 <= i < lines.len() && (#[trigger] lines[i]) is Entry && p.holds(
                date,
                lines[i]->Entry_0,
            ) ==> selected_lines(date, lines, p).contains(cross_day(date, i, lines[i]->Entry_0)),
        forall|j: int, k: int|
            0 <= j < k < selected_lines(date, lines, p).len() ==> selected_lines(
                date,
                lines,
                p,
            )[j].line_index < selected_lines(date, lines, p)[k].line_index,
    decreases lines.len(),
{
    if lines.len() > 0 {
        let init = lines.drop_last();
        let before = selected_lines(date, init, p);
        let now = selected_lines(date, lines, p);
        lemma_selected_lines(date, init, p);
        assert forall|k: int| 0 <= k < now.len() implies {
            let found = #[trigger] now[k];
            &&& found.source_date == date
            &&& 0 <= found.line_index < lines.len()
            &&& lines[found.line_index] is Entry
            &&& p.holds(date, lines[found.line_index]->Entry_0)
            &&& found == cross_day(date, found.line_index, lines[found.line_index]->Entry_0)
        } by {
            if k < before.len() {
                assert(now[k] == before[k]);
                assert(init[before[k].line_index] == lines[before[k].line_index]);
            }
        }
        assert forall|i: int|
            0 <= i < lines.len() && (#[trigger] lines[i]) is Entry && p.holds(
                date,
                lines[i]->Entry_0,
            ) implies now.contains(cross_day(date, i, lines[i]->Entry_0)) by {
            let want = cross_day(date, i, lines[i]->Entry_0);
            if i < lines.len() - 1 {
                assert(init[i] == lines[i]);
                assert(before.contains(want));
                let k = choose|k: int| 0 <= k < before.len() && before[k] == want;
                assert(now[k] == want);
            } else {
                assert(now[now.len() - 1] == want);
            }
        }
        assert forall|j: int, k: int| 0 <= j < k < now.len() implies now[j].line_index
            < now[k].line_index by {
            assert(now[j] == before[j]);
            if k < before.len() {
                assert(now[k] == before[k]);
            }
        }
    }
}

/// What is selected from the days that `order` lists: each item shows an
/// entry of one of these days of which `p` holds; no such entry is left out;
/// and where the days are listed by date ascending, so are the items.
pub proof fn lemma_selected_days<P: EntryPredicate>(days: Seq<DayFileView>, order: Seq<int>, p: P)
    requires
        forall|m: int| 0 <= m < order.len() ==> 0 <= #[trigger] order[m] < days.len(),
    ensures
        forall|k: int|
            0 <= k < selected_days(days, order, p).len() ==> exists|m: int|
                0 <= m < order.len() && shows(
                    days,
                    p,
                    #[trigger] order[m],
                    selected_days(days, order, p)[k].line_index,
                    #[trigger] selected_days(days, order, p)[k],
                ),
        forall|m: int, i: int, found: CrossDayEntryView|
            0 <= m < order.len() && #[trigger] shows(days, p, order[m], i, found)
                ==> selected_days(days, order, p).contains(found),
        (forall|a: int, b: int|
            0 <= a < b < order.len() ==> !days[order[b]].date.precedes(days[order[a]].date))
            ==> forall|j: int, k: int|
            0 <= j < k < selected_days(days, order, p).len() ==> !selected_days(
                days,
                order,
                p,
            )[k].source_date.precedes(selected_days(days, order, p)[j].source_date),
    decreases order.len(),
{
    if order.len() > 0 {
        let init = order.drop_last();
        let last = order.last();
        let day = days[last];
        let before = selected_days(days, init, p);
        let here = selected_lines(day.date, day.lines, p);
        let now = selected_days(days, order, p);
        assert forall|m: int| 0 <= m < init.len() implies 0 <= #[trigger] init[m] < days.len() by {
            assert(init[m] == order[m]);
        }
        lemma_selected_days(days, init, p);
        lemma_selected_lines(day.date, day.lines, p);
        assert(now == before + here);
        assert forall|k: int| 0 <= k < now.len() implies exists|m: int|
            0 <= m < order.len() && shows(
                days,
                p,
                #[trigger] order[m],
                now[k].line_index,
                #[trigger] now[k],
            ) by {
            if k < before.len() {
                assert(now[k] == before[k]);
                let m = choose|m: int|
                    0 <= m < init.len() && shows(
                        days,
                        p,
                        #[trigger] init[m],
                        before[k].line_index,
                        before[k],
                    );
                assert(order[m] == init[m]);
                assert(shows(days, p, order[m], now[k].line_index, now[k]));
            } else {
                assert(now[k] == here[k - before.len()]);
                assert(shows(days, p, order[order.len() - 1], now[k].line_index, now[k]));
            }
        }
        assert forall|m: int, i: int, found: CrossDayEntryView|
            0 <= m < order.len() && #[trigger] shows(days, p, order[m], i, found) implies now.contains(
            found,
        ) by {
            if m < order.len() - 1 {
                assert(init[m] == order[m]);
                assert(before.contains(found));
                let k = choose|k: int| 0 <= k < before.len() && before[k] == found;
                assert(now[k] == found);
            } else {
                assert(here.contains(found));
                let k = choose|k: int| 0 <= k < here.len() && here[k] == found;
                assert(now[before.len() + k] == found);
            }
        }
        if forall|a: int, b: int|
            0 <= a < b < order.len() ==> !days[order[b]].date.precedes(days[order[a]].date) {
            assert forall|a: int, b: int| 0 <= a < b < init.len() implies !days[init[b]].date.precedes(
                days[init[a]].date,
            ) by {
                assert(init[a] == order[a] && init[b] == order[b]);
            }
            assert forall|j: int, k: int| 0 <= j < k < now.len() implies !now[k].source_date.precedes(
                now[j].source_date,
            ) by {
                if k < before.len() {
                    assert(now[j] == before[j] && now[k] == before[k]);
                } else {
                    assert(now[k] == here[k - before.len()]);
                    assert(now[k].source_date == day.date);
                    if j < before.len() {
                        assert(now[j] == before[j]);
                        let m = choose|m: int|
                            0 <= m < init.len() && shows(
                                days,
                                p,
                                #[trigger] init[m],
                                before[j].line_index,
                                before[j],
                            );
                        assert(order[m] == init[m]);
                        assert(now[j].source_date == days[order[m]].date);
                        assert(!days[order[order.len() - 1]].date.precedes(days[order[m]].date));
                    } else {
                        assert(now[j] == here[j - before.len()]);
                    }
                }
            }
        }
    }
}

/// `found` shows an entry of the journal of which `p` holds, at the line
/// where that entry is stored.
pub open spec fn is_shown<P: EntryPredicate>(days: Seq<DayFileView>, p: P, found: CrossDayEntryView) -> bool {
    exists|d: int| #[trigger] shows(days, p, d, found.line_index, found)
}

/// What is selected from a journal: each item shows an entry of which `p`
/// holds, with the day and the line where it is stored; no such entry is left
/// out; and the items come by source date ascending.
pub proof fn lemma_selected<P: EntryPredicate>(days: Seq<DayFileView>, p: P)
    ensures
        forall|k: int|
            0 <= k < selected(days, p).len() ==> is_shown(days, p, #[trigger] selected(days, p)[k]),
        forall|d: int, i: int, found: CrossDayEntryView| #[trigger]
            shows(days, p, d, i, found) ==> selected(days, p).contains(found),
        forall|j: int, k: int|
            0 <= j < k < selected(days, p).len() ==> !selected(days, p)[k].source_date.precedes(
                selected(days, p)[j].source_date,
            ),
{
    let dates = dates_of(days);
    let order = date_order(dates, days.len());
    lemma_date_order(dates, days.len());
    lemma_selected_days(days, order, p);
    let now = selected(days, p);
    assert forall|k: int| 0 <= k < now.len() implies is_shown(days, p, #[trigger] now[k]) by {
        let m = choose|m: int|
            0 <= m < order.len() && shows(days, p, #[trigger] order[m], now[k].line_index, now[k]);
        assert(shows(days, p, order[m], now[k].line_index, now[k]));
    }
    assert forall|d: int, i: int, found: CrossDayEntryView| #[trigger]
        shows(days, p, d, i, found) implies now.contains(found) by {
        assert(order.contains(d));
        let m = choose|m: int| 0 <= m < order.len() && order[m] == d;
        assert(shows(days, p, order[m], i, found));
    }
    assert forall|a: int, b: int| 0 <= a < b < order.len() implies !days[order[b]].date.precedes(
        days[order[a]].date,
    ) by {
        assert(dates[order[b]] == days[order[b]].date);
        assert(dates[order[a]] == days[order[a]].date);
    }
}

/// Collects every entry of which `p` holds, with the day and the line where
/// it is stored: computes [`selected`].
pub fn collect_entries<P: EntryPredicate>(days: &Vec<DayFile>, p: &P) -> (out: Vec<CrossDayEntry>)
    requires
        days_valid(day_views(days@)),
        p.ready(),
    ensures
        cross_day_views(out@) == selected(day_views(days@), *p),
{
    let order = order_by_date(days);
    let ghost views = day_views(days@);
    let ghost positions = as_positions(order@);
    let mut out: Vec<CrossDayEntry> = Vec::new();
    let mut k: usize = 0;
    proof {
        assert(positions.take(0) =~= Seq::<int>::empty());
        assert(cross_day_views(out@) =~= Seq::<CrossDayEntryView>::empty());
    }
    while k < order.len()
        invariant
            k <= order.len(),
            views == day_views(days@),
            days_valid(views),
            p.ready(),
            positions == as_positions(order@),
            forall|j: int| 0 <= j < order@.len() ==> (#[trigger] order@[j]) < days@.len(),
            cross_day_views(out@) == selected_days(views, positions.take(k as int), *p),
        decreases order.len() - k,
    {
        let day = &days[order[k]];
        let ghost done = cross_day_views(out@);
        let ghost day_view = views[order@[k as int] as int];
        proof {
            assert(day_view == day@);
            assert(day_view.date.valid());
            assert(line_views(day.lines@).take(0) =~= Seq::<LineView>::empty());
            assert(done + Seq::<CrossDayEntryView>::empty() =~= done);
        }
        let mut i: usize = 0;
        while i < day.lines.len()
            invariant
                i <= day.lines.len(),
                day.date.valid(),
                p.ready(),
                day_view == day@,
                cross_day_views(out@) == done + selected_lines(
                    day.date,
                    line_views(day.lines@).take(i as int),
                    *p,
                ),
            decreases day.lines.len() - i,
        {
            let ghost old_out = cross_day_views(out@);
            proof {
                let seen = line_views(day.lines@).take(i + 1);
                assert(seen.drop_last() =~= line_views(day.lines@).take(i as int));
                assert(seen.last() == day.lines@[i as int]@);
            }
            match &day.lines[i] {
                Line::Entry(e) => {
                    if p.test(&day.date, e) {
                        out.push(
                            CrossDayEntry {
                                source_date: day.date,
                                line_index: i,
                                content: e.content.clone(),
                                entry_type: e.entry_type,
                                completed: e.entry_type.completed(),
                            },
                        );
                        proof {
                            assert(cross_day_views(out@) =~= old_out.push(
                                cross_day(day.date, i as int, e@),
                            ));
                            assert(cross_day_views(out@) =~= done + selected_lines(
                                day.date,
                                line_views(day.lines@).take(i + 1),
                                *p,
                            ));
                        }
                    }
                },
                Line::Raw(_) => {},
            }
            i += 1;
        }
        proof {
            assert(line_views(day.lines@).take(day.lines.len() as int) =~= day_view.lines);
            let upto = positions.take(k + 1);
            assert(upto.drop_last() =~= positions.take(k as int));
            assert(upto.last() == order@[k as int]);
        }
        k += 1;
    }
    proof {
        assert(positions.take(order.len() as int) =~= positions);
    }
    out
}

} // verus!
