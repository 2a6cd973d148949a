//! Sorting the entries of a day by type.
//!
//! Only entries move, and only among the lines that hold entries: every raw
//! line stays where it is.  Entries of equal rank keep their order.

use crate::config::effective_order;
use crate::config::Config;
use crate::dateexpr::is_word;
use crate::dayfile::as_positions;
use crate::dayfile::compute_entry_indices;
use crate::dayfile::entry_positions;
use crate::dayfile::lemma_entry_positions_exact;
use crate::entries::line_views;
use crate::entries::EntryType;
use crate::entries::Line;
use crate::entries::LineView;
use crate::filter::string_views;
use crate::journal::clone_lines;
use crate::text::chars_of;
use vstd::prelude::*;

verus! {

/// The name `name` of the sort order stands for entries of type `t`.
pub open spec fn names_type(name: Seq<char>, t: EntryType) -> bool {
    ||| name == "completed"@ && t == (EntryType::Task { completed: true })
    ||| name == "uncompleted"@ && t == (EntryType::Task { completed: false })
    ||| name == "notes"@ && t is Note
    ||| name == "events"@ && t is Event
}

/// The rank of the type `t` in the sort order, looking from position `from`
/// on: the position of the first name that stands for it, and the length of
/// the order where none does.
pub open spec fn rank_from(order: Seq<Seq<char>>, from: int, t: EntryType) -> int
    decreases order.len() - from,
{
    if from < 0 || from >= order.len() {
        order.len() as int
    } else if names_type(order[from], t) {
        from
    } else {
        rank_from(order, from + 1, t)
    }
}

/// The rank of a line in the sort order; a raw line ranks behind every type.
pub open spec fn rank_of(order: Seq<Seq<char>>, line: LineView) -> int {
    match line {
        LineView::Entry(e) => rank_from(order, 0, e.entry_type),
        LineView::Raw(_) => order.len() as int,
    }
}

/// Where index `i` goes into `order`, a list of indices into `keys` in
/// ascending order of key: behind every index whose key is not greater.
pub open spec fn key_insertion_point(order: Seq<int>, keys: Seq<int>, i: int) -> int
    decreases order.len(),
{
    if order.len() > 0 && keys[i] < keys[order.last()] {
        key_insertion_point(order.drop_last(), keys, i)
    } else {
        order.len() as int
    }
}

/// The first `n` indices into `keys`, ordered by key ascending; indices of
/// equal key keep their order.
pub open spec fn key_order(keys: Seq<int>, n: nat) -> Seq<int>
    decreases n,
{
    if n == 0 {
        Seq::<int>::empty()
    } else {
        let before = key_order(keys, (n - 1) as nat);
        before.insert(key_insertion_point(before, keys, n - 1), n - 1)
    }
}

/// The insertion point lies inside the order; what stands before it is not
/// greater than the new key, and what stands from it on is greater.
pub proof fn lemma_key_insertion_point(order: Seq<int>, keys: Seq<int>, i: int)
    ensures
        0 <= key_insertion_point(order, keys, i) <= order.len(),
        forall|k: int|
            key_insertion_point(order, keys, i) <= k < order.len() ==> keys[i] < keys[#[trigger] order[k]],
        key_insertion_point(order, keys, i) > 0 ==> keys[order[key_insertion_point(order, keys, i)
            - 1]] <= keys[i],
    decreases order.len(),
{
    if order.len() > 0 && keys[i] < keys[order.last()] {
        let init = order.drop_last();
        lemma_key_insertion_point(init, keys, i);
        let p = key_insertion_point(order, keys, i);
        assert forall|k: int| p <= k < order.len() implies keys[i] < keys[#[trigger] order[k]] by {
            if k < order.len() - 1 {
                assert(order[k] == init[k]);
            }
        }
        if p > 0 {
            assert(order[p - 1] == init[p - 1]);
        }
    }
}

/// The order by key holds each of the first `n` indices, ascends by key, and
/// keeps indices of equal key in their order.
pub proof fn lemma_key_order(keys: Seq<int>, n: nat)
    requires
        n <= keys.len(),
    ensures
        key_order(keys, n).len() == n,
        forall|k: int| 0 <= k < n ==> 0 <= (#[trigger] key_order(keys, n)[k]) < n,
        forall|i: int| 0 <= i < n ==> key_order(keys, n).contains(i),
        forall|j: int, k: int|
            0 <= j < k < n ==> keys[key_order(keys, n)[j]] <= keys[key_order(keys, n)[k]],
        forall|j: int, k: int|
            0 <= j < k < n && keys[key_order(keys, n)[j]] == keys[key_order(keys, n)[k]]
                ==> key_order(keys, n)[j] < key_order(keys, n)[k],
    decreases n,
{
    if n > 0 {
        let before = key_order(keys, (n - 1) as nat);
        let p = key_insertion_point(before, keys, n - 1);
        let now = key_order(keys, n);
        lemma_key_order(keys, (n - 1) as nat);
        lemma_key_insertion_point(before, keys, n - 1);
        assert forall|i: int| 0 <= i < n implies now.contains(i) by {
            if i == n - 1 {
                assert(now[p] == i);
            } else {
                assert(before.contains(i));
                let k = choose|k: int| 0 <= k < before.len() && before[k] == i;
                if k < p {
                    assert(now[k] == i);
                } else {
                    assert(now[k + 1] == i);
                }
            }
        }
        assert forall|j: int, k: int| 0 <= j < k < n implies keys[now[j]] <= keys[now[k]] by {
            let a = if j < p {
                j
            } else {
                j - 1
            };
            let b = if k < p {
                k
            } else {
                k - 1
            };
            if k == p {
                if j == p - 1 {
                } else {
                    assert(keys[before[j]] <= keys[before[p - 1]]);
                }
            } else if j == p {
                assert(keys[n - 1] < keys[before[b]]);
            } else {
                assert(keys[before[a]] <= keys[before[b]]);
            }
        }
        assert forall|j: int, k: int|
            0 <= j < k < n && keys[now[j]] == keys[now[k]] implies now[j] < now[k] by {
            if k == p {
            } else if j == p {
                let b = k - 1;
                assert(keys[n - 1] < keys[before[b]]);
            } else {
                let a = if j < p {
                    j
                } else {
                    j - 1
                };
                let b = if k < p {
                    k
                } else {
                    k - 1
                };
                assert(before[a] < before[b]);
            }
        }
    }
}

/// The indices of `keys` by key ascending, indices of equal key in their
/// order: computes [`key_order`].
pub fn order_by_key(keys: &Vec<usize>) -> (order: Vec<usize>)
    ensures
        as_positions(order@) == key_order(as_positions(keys@), keys@.len()),
        order@.len() == keys@.len(),
        forall|k: int| 0 <= k < order@.len() ==> (#[trigger] order@[k]) < keys@.len(),
{
    let ghost all = as_positions(keys@);
    let mut order: Vec<usize> = Vec::new();
    let mut n: usize = 0;
    while n < keys.len()
        invariant
            n <= keys.len(),
            all == as_positions(keys@),
            as_positions(order@) == key_order(all, n as nat),
            order@.len() == n,
            forall|k: int| 0 <= k < order@.len() ==> (#[trigger] order@[k]) < n,
        decreases keys.len() - n,
    {
        let ghost before = as_positions(order@);
        let mut p: usize = order.len();
        proof {
            assert(before.take(p as int) =~= before);
        }
        while p > 0 && keys[n] < keys[order[p - 1]]
            invariant
                p <= order.len(),
                n < keys.len(),
                order@.len() == n,
                before == as_positions(order@),
                all == as_positions(keys@),
                forall|k: int| 0 <= k < order@.len() ==> (#[trigger] order@[k]) < n,
                key_insertion_point(before, all, n as int) == key_insertion_point(
                    before.take(p as int),
                    all,
                    n as int,
                ),
            decreases p,
        {
            proof {
                let cut = before.take(p as int);
                assert(cut.last() == order@[p - 1]);
                assert(cut.drop_last() =~= before.take(p - 1));
            }
            p -= 1;
        }
        proof {
            let cut = before.take(p as int);
            if p > 0 {
                assert(cut.last() == order@[p - 1]);
            }
            assert(key_insertion_point(cut, all, n as int) == p);
        }
        order.insert(p, n);
        proof {
            assert(as_positions(order@) =~= before.insert(p as int, n as int));
        }
        n += 1;
    }
    order
}

/// The ranks of the lines at the positions `positions`.
pub open spec fn ranks_at(lines: Seq<LineView>, positions: Seq<int>, order: Seq<Seq<char>>) -> Seq<
    int,
> {
    Seq::new(positions.len(), |k: int| rank_of(order, lines[positions[k]]))
}

/// The lines `source` with the first `n` positions of `positions` filled anew:
/// position number `k` gets the line that stood at position number
/// `ranking[k]`.
pub open spec fn rearranged(
    source: Seq<LineView>,
    positions: Seq<int>,
    ranking: Seq<int>,
    n: nat,
) -> Seq<LineView>
    decreases n,
{
    if n == 0 {
        source
    } else {
        rearranged(source, positions, ranking, (n - 1) as nat).update(
            positions[n - 1],
            source[positions[ranking[n - 1]]],
        )
    }
}

/// The lines with their entries sorted by the ranks that `order` gives to
/// their types.  Entries of equal rank keep their order, and raw lines stay
/// where they are.
pub open spec fn sorted_lines(lines: Seq<LineView>, order: Seq<Seq<char>>) -> Seq<LineView> {
    let positions = entry_positions(lines);
    let ranking = key_order(ranks_at(lines, positions, order), positions.len());
    rearranged(lines, positions, ranking, positions.len())
}

/// Decides [`names_type`].
fn name_stands_for(name: &Vec<char>, t: EntryType) -> (r: bool)
    ensures
        r == names_type(name@, t),
{
    match t {
        EntryType::Task { completed: true } => is_word(name, "completed"),
        EntryType::Task { completed: false } => is_word(name, "uncompleted"),
        EntryType::Note => is_word(name, "notes"),
        EntryType::Event => is_word(name, "events"),
    }
}

/// The rank of a line in `order`: computes [`rank_of`].
pub fn rank(order: &Vec<String>, line: &Line) -> (r: usize)
    ensures
        r == rank_of(string_views(order@), line@),
{
    let ghost names = string_views(order@);
    assert(names.len() == order.len());
    match line {
        Line::Raw(_) => order.len(),
        Line::Entry(e) => {
            let mut i: usize = 0;
            while i < order.len()
                invariant
                    i <= order.len(),
                    names == string_views(order@),
                    line@ == LineView::Entry(e@),
                    rank_from(names, i as int, e.entry_type) == rank_from(names, 0, e.entry_type),
                decreases order.len() - i,
            {
                let name = chars_of(order[i].as_str());
                assert(names[i as int] == order@[i as int]@);
                if name_stands_for(&name, e.entry_type) {
                    return i;
                }
                i += 1;
            }
            order.len()
        },
    }
}

/// Sorts the entries of `lines` by the sort order of the settings.
pub fn sort_entries(lines: &mut Vec<Line>, config: &Config)
    ensures
        line_views(final(lines)@) == sorted_lines(
            line_views(old(lines)@),
            effective_order(string_views(config.sort_order@)),
        ),
{
    let order = config.validated_sort_order();
    let positions = compute_entry_indices(lines.as_slice());
    let source = clone_lines(lines);
    let ghost views = line_views(source@);
    let ghost names = string_views(order@);
    let ghost places = as_positions(positions@);
    proof {
        lemma_entry_positions_exact(views);
        assert(places.len() == positions.len());
    }
    let mut keys: Vec<usize> = Vec::new();
    let mut k: usize = 0;
    while k < positions.len()
        invariant
            k <= positions.len(),
            views == line_views(source@),
            names == string_views(order@),
            places == as_positions(positions@),
            places == entry_positions(views),
            forall|j: int| 0 <= j < places.len() ==> 0 <= (#[trigger] places[j]) < views.len(),
            keys@.len() == k,
            forall|j: int|
                0 <= j < k ==> (#[trigger] keys@[j]) as int == rank_of(names, views[places[j]]),
        decreases positions.len() - k,
    {
        assert(places[k as int] == positions@[k as int]);
        assert(views[positions@[k as int] as int] == source@[positions@[k as int] as int]@);
        keys.push(rank(&order, &source[positions[k]]));
        k += 1;
    }
    let ranking = order_by_key(&keys);
    let ghost ranks = as_positions(ranking@);
    proof {
        assert(as_positions(keys@) =~= ranks_at(views, places, names));
        assert(ranks.len() == ranking.len());
    }
    let mut n: usize = 0;
    while n < positions.len()
        invariant
            n <= positions.len(),
            lines@.len() == source@.len(),
            views == line_views(source@),
            places == as_positions(positions@),
            ranks == as_positions(ranking@),
            ranking@.len() == positions@.len(),
            forall|j: int| 0 <= j < places.len() ==> 0 <= (#[trigger] places[j]) < views.len(),
            forall|j: int| 0 <= j < ranking@.len() ==> (#[trigger] ranking@[j]) < positions@.len(),
            line_views(lines@) == rearranged(views, places, ranks, n as nat),
        decreases positions.len() - n,
    {
        let ghost before = line_views(lines@);
        let from = positions[ranking[n]];
        proof {
            assert(places[n as int] == positions@[n as int]);
            assert(ranks[n as int] == ranking@[n as int]);
            assert(places[ranking@[n as int] as int] == from);
            assert(views[from as int] == source@[from as int]@);
        }
        let line = source[from].clone();
        lines.set(positions[n], line);
        proof {
            assert(line_views(lines@) =~= before.update(places[n as int], views[from as int]));
        }
        n += 1;
    }
}

} // verus!
