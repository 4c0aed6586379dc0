//! Grouping: the name of the group that each item belongs to, and the order of the groups.

use vstd::prelude::*;
use vstd::std_specs::hash::*;

use std::collections::HashMap;

use crate::shell_items::{self, filetime_ticks, FileTime};
use crate::text::{self, chars_of, str_eq, upper_char};
use crate::wide::{self, buffer_text};

verus! {

// ----- order of the items -----

/// Whether every answer of a comparison of the first `n` items is that of the numbers that `rank`
/// gives to them.
pub open spec fn compares_by<F: Fn(usize, usize) -> i32>(
    compare: F,
    n: int,
    rank: spec_fn(int) -> int,
) -> bool {
    forall|a: usize, b: usize, c: i32|
        a < n && b < n && #[trigger] call_ensures(compare, (a, b), c) ==> {
            &&& c < 0 <==> rank(a as int) < rank(b as int)
            &&& c > 0 <==> rank(a as int) > rank(b as int)
        }
}

/// Whether item `a` comes before item `b`: by the numbers, in the direction that is asked for, and
/// by position where the numbers are equal.
pub open spec fn comes_before(
    rank: spec_fn(int) -> int,
    ascending: bool,
    a: usize,
    b: usize,
) -> bool {
    if rank(a as int) == rank(b as int) {
        a < b
    } else {
        (rank(a as int) < rank(b as int)) == ascending
    }
}

/// Whether a list of items is in order.
pub open spec fn in_order(v: Seq<usize>, rank: spec_fn(int) -> int, ascending: bool) -> bool {
    forall|i: int, j: int|
        0 <= i < j < v.len() ==> #[trigger] comes_before(rank, ascending, v[i], v[j])
}

/// Whether a list holds each of the first `n` positions once.
pub open spec fn is_arrangement(v: Seq<usize>, n: int) -> bool {
    &&& v.len() == n
    &&& v.no_duplicates()
    &&& forall|i: int| 0 <= i < v.len() ==> #[trigger] v[i] < n
}

/// Where item `k` goes in a list of items before it.
fn place_of<F: Fn(usize, usize) -> i32>(
    list: &Vec<usize>,
    k: usize,
    compare: &F,
    ascending: bool,
) -> (r: usize)
    requires
        forall|a: usize, b: usize| a <= k && b <= k ==> call_requires(compare, (a, b)),
        forall|i: int| 0 <= i < list@.len() ==> #[trigger] list@[i] < k,
    ensures
        r <= list@.len(),
        forall|rank: spec_fn(int) -> int| #[trigger]
            compares_by(*compare, k + 1, rank) && in_order(list@, rank, ascending) ==> {
                &&& forall|i: int|
                    0 <= i < r ==> comes_before(rank, ascending, #[trigger] list@[i], k)
                &&& forall|i: int|
                    r <= i < list@.len() ==> comes_before(rank, ascending, k, #[trigger] list@[i])
            },
{
    let mut lo: usize = 0;
    let mut hi: usize = list.len();
    while lo < hi
        invariant
            lo <= hi <= list@.len(),
            forall|a: usize, b: usize| a <= k && b <= k ==> call_requires(compare, (a, b)),
            forall|i: int| 0 <= i < list@.len() ==> #[trigger] list@[i] < k,
            forall|rank: spec_fn(int) -> int| #[trigger]
                compares_by(*compare, k + 1, rank) && in_order(list@, rank, ascending) ==> {
                    &&& forall|i: int|
                        0 <= i < lo ==> comes_before(rank, ascending, #[trigger] list@[i], k)
                    &&& forall|i: int|
                        hi <= i < list@.len() ==> comes_before(
                            rank,
                            ascending,
                            k,
                            #[trigger] list@[i],
                        )
                },
        decreases hi - lo,
    {
        let mid: usize = lo + (hi - lo) / 2;
        let c: i32 = compare(list[mid], k);
        let after = if ascending {
            c > 0
        } else {
            c < 0
        };
        proof {
            let m = list@[mid as int];
            assert forall|rank: spec_fn(int) -> int| #[trigger]
                compares_by(*compare, k + 1, rank) && in_order(list@, rank, ascending) implies {
                &&& after ==> forall|i: int|
                    mid <= i < list@.len() ==> comes_before(rank, ascending, k, #[trigger] list@[i])
                &&& !after ==> forall|i: int|
                    0 <= i <= mid ==> comes_before(rank, ascending, #[trigger] list@[i], k)
            } by {
                assert(call_ensures(compare, (m, k), c));
                if after {
                    assert(comes_before(rank, ascending, k, m));
                    assert forall|i: int| mid <= i < list@.len() implies comes_before(
                        rank,
                        ascending,
                        k,
                        #[trigger] list@[i],
                    ) by {
                        if i > mid {
                            assert(comes_before(rank, ascending, m, list@[i]));
                        }
                    }
                } else {
                    assert(comes_before(rank, ascending, m, k));
                    assert forall|i: int| 0 <= i <= mid implies comes_before(
                        rank,
                        ascending,
                        #[trigger] list@[i],
                        k,
                    ) by {
                        if i < mid {
                            assert(comes_before(rank, ascending, list@[i], m));
                        }
                    }
                }
            }
        }
        if after {
            hi = mid;
        } else {
            lo = mid + 1;
        }
    }
    lo
}

/// The order of `n` items by a comparison, in the direction that is asked for. Items that compare
/// as equal keep their positions. Where the comparison contradicts itself, any order may come out.
pub fn order_by<F: Fn(usize, usize) -> i32>(n: usize, compare: F, ascending: bool) -> (r: Vec<
    usize,
>)
    requires
        forall|a: usize, b: usize| a < n && b < n ==> call_requires(compare, (a, b)),
    ensures
        is_arrangement(r@, n as int),
        forall|rank: spec_fn(int) -> int| #[trigger]
            compares_by(compare, n as int, rank) ==> in_order(r@, rank, ascending),
{
    let mut list: Vec<usize> = Vec::new();
    let mut k: usize = 0;
    while k < n
        invariant
            k <= n,
            forall|a: usize, b: usize| a < n && b < n ==> call_requires(compare, (a, b)),
            is_arrangement(list@, k as int),
            forall|rank: spec_fn(int) -> int| #[trigger]
                compares_by(compare, n as int, rank) ==> in_order(list@, rank, ascending),
        decreases n - k,
    {
        let ghost before = list@;
        let p = place_of(&list, k, &compare, ascending);
        list.insert(p, k);
        proof {
            assert(list@ =~= before.insert(p as int, k));
            assert forall|rank: spec_fn(int) -> int| #[trigger]
                compares_by(compare, n as int, rank) implies in_order(list@, rank, ascending) by {
                assert(compares_by(compare, k + 1, rank));
                assert forall|i: int, j: int| 0 <= i < j < list@.len() implies #[trigger]
                comes_before(rank, ascending, list@[i], list@[j]) by {
                    let bi = if i < p {
                        i
                    } else {
                        i - 1
                    };
                    let bj = if j < p {
                        j
                    } else {
                        j - 1
                    };
                    if i == p {
                        assert(list@[j] == before[bj]);
                    } else if j == p {
                        assert(list@[i] == before[bi]);
                    } else {
                        assert(list@[i] == before[bi] && list@[j] == before[bj]);
                        assert(comes_before(rank, ascending, before[bi], before[bj]));
                    }
                }
            }
            assert forall|i: int| 0 <= i < list@.len() implies #[trigger] list@[i] < k + 1 by {
                if i < p {
                    assert(list@[i] == before[i]);
                } else if i > p {
                    assert(list@[i] == before[i - 1]);
                }
            }
            assert forall|i: int, j: int|
                0 <= i < list@.len() && 0 <= j < list@.len() && i != j implies list@[i]
                != list@[j] by {
                let bi = if i < p {
                    i
                } else {
                    i - 1
                };
                let bj = if j < p {
                    j
                } else {
                    j - 1
                };
                if i == p {
                    assert(list@[j] == before[bj]);
                } else if j == p {
                    assert(list@[i] == before[bi]);
                } else {
                    assert(list@[i] == before[bi] && list@[j] == before[bj]);
                }
            }
        }
        k += 1;
    }
    list
}

// ----- order of the groups -----

/// The names of the groups in the order in which the items, taken in the given order, first show
/// them.
pub open spec fn groups(names: Seq<Seq<char>>, order: Seq<usize>) -> Seq<Seq<char>>
    decreases order.len(),
{
    if order.len() == 0 {
        Seq::empty()
    } else {
        let before = groups(names, order.drop_last());
        let name = names[order.last() as int];
        if before.contains(name) {
            before
        } else {
            before.push(name)
        }
    }
}

/// The position of a group among the groups.
pub open spec fn group_rank(all: Seq<Seq<char>>, name: Seq<char>) -> int {
    all.index_of(name)
}

/// What is known of the group of an item: its rank and its name.
pub open spec fn group_views(v: Seq<(i32, String)>) -> Seq<(int, Seq<char>)> {
    v.map_values(|g: (i32, String)| (g.0 as int, g.1@))
}

/// The rank and the name of the group of each item.
pub open spec fn ranked(names: Seq<Seq<char>>, order: Seq<usize>) -> Seq<(int, Seq<char>)> {
    names.map_values(|name: Seq<char>| (group_rank(groups(names, order), name), name))
}

proof fn lemma_groups(names: Seq<Seq<char>>, order: Seq<usize>)
    requires
        forall|i: int| 0 <= i < order.len() ==> #[trigger] order[i] < names.len(),
    ensures
        groups(names, order).no_duplicates(),
        groups(names, order).len() <= order.len(),
        forall|i: int|
            0 <= i < order.len() ==> groups(names, order).contains(names[#[trigger] order[i] as int]),
        forall|g: int|
            0 <= g < groups(names, order).len() ==> exists|i: int|
                0 <= i < order.len() && names[#[trigger] order[i] as int] == #[trigger] groups(
                    names,
                    order,
                )[g],
    decreases order.len(),
{
    if order.len() > 0 {
        let d = order.drop_last();
        assert forall|i: int| 0 <= i < d.len() implies #[trigger] d[i] < names.len() by {
            assert(d[i] == order[i]);
        }
        lemma_groups(names, d);
        let before = groups(names, d);
        let all = groups(names, order);
        let name = names[order.last() as int];
        assert forall|i: int| 0 <= i < order.len() implies all.contains(
            names[#[trigger] order[i] as int],
        ) by {
            if i < d.len() {
                assert(d[i] == order[i]);
                let k = choose|k: int| 0 <= k < before.len() && before[k] == names[d[i] as int];
                assert(all[k] == before[k]);
            } else if before.contains(name) {
            } else {
                assert(all[all.len() - 1] == name);
            }
        }
        assert forall|g: int| 0 <= g < all.len() implies exists|i: int|
            0 <= i < order.len() && names[#[trigger] order[i] as int] == #[trigger] all[g] by {
            if g < before.len() {
                assert(before[g] == all[g]);
                let i = choose|i: int|
                    0 <= i < d.len() && names[#[trigger] d[i] as int] == before[g];
                assert(order[i] == d[i]);
            } else {
                assert(order[order.len() - 1] == order.last());
            }
        }
    }
}

fn position_in(all: &Vec<String>, name: &str) -> (r: Option<usize>)
    requires
        text::texts(all@).no_duplicates(),
    ensures
        match r {
            Some(k) => k < all@.len() && k == group_rank(text::texts(all@), name@)
                && text::texts(all@).contains(name@),
            None => !text::texts(all@).contains(name@),
        },
{
    let ghost seen = text::texts(all@);
    let mut i: usize = 0;
    while i < all.len()
        invariant
            i <= all.len(),
            seen == text::texts(all@),
            seen.no_duplicates(),
            forall|j: int| 0 <= j < i ==> seen[j] != name@,
        decreases all.len() - i,
    {
        assert(seen[i as int] == all@[i as int]@);
        if str_eq(all[i].as_str(), name) {
            assert(seen.contains(name@));
            assert(seen[seen.index_of(name@)] == name@);
            return Some(i);
        }
        i += 1;
    }
    None
}

proof fn lemma_every_position(v: Seq<usize>, n: int, k: int)
    requires
        is_arrangement(v, n),
        0 <= k < n,
    ensures
        exists|i: int| 0 <= i < v.len() && #[trigger] v[i] == k,
{
    let s = v.map_values(|x: usize| x as int);
    assert forall|i: int, j: int| 0 <= i < s.len() && 0 <= j < s.len() && i != j implies s[i]
        != s[j] by {
        assert(v[i] != v[j]);
    }
    let all = vstd::set_lib::set_int_range(0, n);
    vstd::set_lib::lemma_int_range(0, n);
    s.unique_seq_to_set();
    assert(s.to_set().subset_of(all)) by {
        assert forall|x: int| s.to_set().contains(x) implies all.contains(x) by {
            let i = choose|i: int| 0 <= i < s.len() && s[i] == x;
            assert(v[i] < n);
        }
    }
    vstd::set_lib::lemma_subset_equality(s.to_set(), all);
    assert(s.to_set().contains(k));
    let i = choose|i: int| 0 <= i < s.len() && s[i] == k;
    assert(v[i] == k);
}

/// The rank and the name of the group of each item, where every item has a name; the items are
/// taken in the given order to rank the groups. Nothing is grouped into no groups at all.
pub fn compute(n: usize, names: Option<Vec<String>>, order: &[usize]) -> (r: Option<
    Vec<(i32, String)>,
>)
    requires
        n <= i32::MAX,
        names matches Some(v) ==> v@.len() == n,
        is_arrangement(order@, n as int),
    ensures
        match r {
            Some(v) => if n == 0 {
                v@.len() == 0
            } else {
                names matches Some(names) && group_views(v@) == ranked(
                    text::texts(names@),
                    order@,
                )
            },
            None => n > 0 && names is None,
        },
{
    if n == 0 {
        return Some(Vec::new());
    }
    let names = match names {
        Some(v) => v,
        None => return None,
    };
    let ghost all = text::texts(names@);
    let mut seen: Vec<String> = Vec::new();
    let mut i: usize = 0;
    assert(text::texts(seen@) =~= groups(all, order@.take(0)));
    while i < order.len()
        invariant
            i <= order.len(),
            n == names@.len(),
            all == text::texts(names@),
            is_arrangement(order@, n as int),
            text::texts(seen@) == groups(all, order@.take(i as int)),
        decreases order.len() - i,
    {
        let ghost before = seen@;
        let ghost head = order@.take(i as int);
        let k = order[i];
        proof {
            assert(order@.take(i + 1).drop_last() =~= head);
            assert forall|j: int| 0 <= j < head.len() implies #[trigger] head[j] < all.len() by {
                assert(head[j] == order@[j]);
            }
            lemma_groups(all, head);
            assert(all[k as int] == names@[k as int]@);
        }
        if position_in(&seen, names[k].as_str()).is_none() {
            seen.push(names[k].clone());
            assert(text::texts(seen@) =~= text::texts(before).push(all[k as int]));
        }
        i += 1;
    }
    proof {
        assert(order@.take(order@.len() as int) =~= order@);
        lemma_groups(all, order@);
        assert(text::texts(seen@).len() == seen@.len());
    }
    let mut out: Vec<(i32, String)> = Vec::new();
    let mut i: usize = 0;
    while i < n
        invariant
            i <= n,
            n == names@.len(),
            n <= i32::MAX,
            all == text::texts(names@),
            is_arrangement(order@, n as int),
            text::texts(seen@) == groups(all, order@),
            text::texts(seen@).no_duplicates(),
            seen@.len() <= n,
            forall|j: int|
                0 <= j < order@.len() ==> groups(all, order@).contains(
                    all[#[trigger] order@[j] as int],
                ),
            group_views(out@) =~= ranked(all, order@).take(i as int),
        decreases n - i,
    {
        let ghost before = out@;
        proof {
            assert(all[i as int] == names@[i as int]@);
            lemma_every_position(order@, n as int, i as int);
            let j = choose|j: int| 0 <= j < order@.len() && #[trigger] order@[j] == i;
            assert(groups(all, order@).contains(all[order@[j] as int]));
        }
        let rank: i32 = match position_in(&seen, names[i].as_str()) {
            Some(k) => k as i32,
            None => 0,
        };
        out.push((rank, names[i].clone()));
        proof {
            assert(ranked(all, order@)[i as int] == (
                group_rank(groups(all, order@), all[i as int]),
                all[i as int],
            ));
            assert(group_views(out@) =~= group_views(before).push(ranked(all, order@)[i as int]));
        }
        i += 1;
    }
    assert(group_views(out@) =~= ranked(all, order@));
    Some(out)
}

/// Whether some item has a rank.
pub open spec fn has_rank(r: Seq<(int, Seq<char>)>, g: int) -> bool {
    exists|i: int| 0 <= i < r.len() && (#[trigger] r[i]).0 == g
}

proof fn lemma_rank_follows_name(names: Seq<Seq<char>>, order: Seq<usize>, a: int, b: int)
    requires
        is_arrangement(order, names.len() as int),
        0 <= a < names.len(),
        0 <= b < names.len(),
    ensures
        ranked(names, order)[a].0 == ranked(names, order)[b].0 <==> names[a] == names[b],
{
    lemma_groups(names, order);
    lemma_every_position(order, names.len() as int, a);
    lemma_every_position(order, names.len() as int, b);
    let all = groups(names, order);
    let i = choose|i: int| 0 <= i < order.len() && #[trigger] order[i] == a;
    let j = choose|j: int| 0 <= j < order.len() && #[trigger] order[j] == b;
    assert(all.contains(names[order[i] as int]));
    assert(all.contains(names[order[j] as int]));
    assert(all[all.index_of(names[a])] == names[a]);
    assert(all[all.index_of(names[b])] == names[b]);
}

proof fn lemma_ranks_have_no_gaps(names: Seq<Seq<char>>, order: Seq<usize>, g: int)
    requires
        is_arrangement(order, names.len() as int),
    ensures
        has_rank(ranked(names, order), g) <==> 0 <= g < groups(names, order).len(),
{
    lemma_groups(names, order);
    let all = groups(names, order);
    if 0 <= g < all.len() {
        let i = choose|i: int|
            0 <= i < order.len() && names[#[trigger] order[i] as int] == #[trigger] all[g];
        let k = order[i] as int;
        assert(all.contains(all[g]));
        assert(all[all.index_of(all[g])] == all[g]);
        assert(ranked(names, order)[k].0 == g);
    }
    if has_rank(ranked(names, order), g) {
        let i = choose|i: int| 0 <= i < names.len() && (#[trigger] ranked(names, order)[i]).0 == g;
        lemma_every_position(order, names.len() as int, i);
        let j = choose|j: int| 0 <= j < order.len() && #[trigger] order[j] == i;
        assert(all.contains(names[order[j] as int]));
    }
}

proof fn lemma_groups_are_distinct_names(names: Seq<Seq<char>>, order: Seq<usize>)
    requires
        is_arrangement(order, names.len() as int),
    ensures
        groups(names, order).len() == names.to_set().len(),
{
    let all = groups(names, order);
    lemma_groups(names, order);
    all.unique_seq_to_set();
    assert forall|name: Seq<char>| all.to_set().contains(name) == names.to_set().contains(name) by {
        if all.contains(name) {
            let g = choose|g: int| 0 <= g < all.len() && all[g] == name;
            let i = choose|i: int|
                0 <= i < order.len() && names[#[trigger] order[i] as int] == #[trigger] all[g];
            assert(names.contains(names[order[i] as int]));
        }
        if names.contains(name) {
            let a = choose|a: int| 0 <= a < names.len() && names[a] == name;
            lemma_every_position(order, names.len() as int, a);
            let i = choose|i: int| 0 <= i < order.len() && #[trigger] order[i] == a;
            assert(all.contains(names[order[i] as int]));
        }
    }
    assert(all.to_set() =~= names.to_set());
}

/// Each item has the name of its own group; two items have the same rank exactly where their groups
/// have the same name; and the ranks are the numbers from 0 up to the number of different names,
/// without gaps, whatever the order of the items.
pub proof fn law_ranks_number_the_groups(names: Seq<Seq<char>>, order: Seq<usize>)
    requires
        is_arrangement(order, names.len() as int),
    ensures
        ({
            let r = ranked(names, order);
            &&& r.len() == names.len()
            &&& forall|i: int| 0 <= i < r.len() ==> (#[trigger] r[i]).1 == names[i]
            &&& forall|i: int, j: int|
                #![trigger r[i], r[j]]
                0 <= i < r.len() && 0 <= j < r.len() ==> (r[i].0 == r[j].0 <==> r[i].1 == r[j].1)
            &&& forall|g: int| #[trigger] has_rank(r, g) <==> 0 <= g < names.to_set().len()
        }),
{
    let r = ranked(names, order);
    lemma_groups_are_distinct_names(names, order);
    assert forall|i: int, j: int|
        #![trigger r[i], r[j]]
        0 <= i < r.len() && 0 <= j < r.len() implies (r[i].0 == r[j].0 <==> r[i].1 == r[j].1) by {
        lemma_rank_follows_name(names, order, i, j);
    }
    assert forall|g: int| #[trigger] has_rank(r, g) <==> 0 <= g < names.to_set().len() by {
        lemma_ranks_have_no_gaps(names, order, g);
    }
}

/// Where the first item of one group stands before the first item of another in the order of the
/// items, the rank of that group is lower.
pub proof fn law_ranks_follow_order(names: Seq<Seq<char>>, order: Seq<usize>, i: int, j: int)
    requires
        is_arrangement(order, names.len() as int),
        0 <= i < j < order.len(),
        forall|k: int|
            0 <= k < j ==> names[#[trigger] order[k] as int] != names[order[j] as int],
    ensures
        ranked(names, order)[order[i] as int].0 < ranked(names, order)[order[j] as int].0,
{
    lemma_groups(names, order);
    let all = groups(names, order);
    let a = names[order[i] as int];
    let b = names[order[j] as int];
    assert(all.contains(a));
    assert(all.contains(b));
    assert(all[all.index_of(a)] == a);
    assert(all[all.index_of(b)] == b);
    lemma_groups_grow(names, order, j);
    let early = groups(names, order.take(j));
    assert forall|k: int| 0 <= k < order.take(j).len() implies #[trigger] order.take(j)[k]
        < names.len() by {
        assert(order.take(j)[k] == order[k]);
    }
    lemma_groups(names, order.take(j));
    assert(order.take(j)[i] == order[i]);
    assert(early.contains(names[order.take(j)[i] as int]));
    let p = choose|p: int| 0 <= p < early.len() && early[p] == a;
    assert(all[p] == a);
    if all.index_of(b) < early.len() {
        let q = all.index_of(b);
        assert(early[q] == b);
        let k = choose|k: int|
            0 <= k < order.take(j).len() && names[#[trigger] order.take(j)[k] as int]
                == #[trigger] early[q];
        assert(order.take(j)[k] == order[k]);
    }
}

proof fn lemma_groups_grow(names: Seq<Seq<char>>, order: Seq<usize>, j: int)
    requires
        0 <= j <= order.len(),
    ensures
        groups(names, order.take(j)).len() <= groups(names, order).len(),
        forall|k: int|
            0 <= k < groups(names, order.take(j)).len() ==> groups(names, order.take(j))[k]
                == groups(names, order)[k],
    decreases order.len() - j,
{
    if j < order.len() {
        lemma_groups_grow(names, order, j + 1);
        assert(order.take(j + 1).drop_last() =~= order.take(j));
        let short = groups(names, order.take(j));
        let long = groups(names, order.take(j + 1));
        assert forall|k: int| 0 <= k < short.len() implies short[k] == groups(names, order)[k] by {
            assert(long[k] == short[k]);
        }
    } else {
        assert(order.take(j) =~= order);
    }
}

// ----- names from the shell -----

/// What the shell says of the category of an item.
#[derive(Clone, Copy, PartialEq, Eq, Structural)]
pub enum Probe {
    /// The item cannot be asked.
    Unsupported,
    /// The item has no category.
    Uncategorized,
    /// The number of its category.
    Category(u32),
}

/// What is to be done for an item.
#[derive(Clone, Copy, PartialEq, Eq, Structural)]
pub enum NameStep {
    /// Give up: the shell cannot name the groups.
    GiveUp,
    /// Go on with the next item.
    Next,
    /// Ask for the name of this category, and tell it with `learn`.
    AskName(u32),
}

/// The names of the groups of the items so far, and those of the categories that are known.
pub struct CategoryNames {
    known: HashMap<u32, String>,
    names: Vec<String>,
}

#[verifier::ext_equal]
pub struct CategoryView {
    pub known: Map<u32, Seq<char>>,
    pub names: Seq<Seq<char>>,
}

impl View for CategoryNames {
    type V = CategoryView;

    closed spec fn view(&self) -> CategoryView {
        CategoryView {
            known: self.known@.map_values(|s: String| s@),
            names: text::texts(self.names@),
        }
    }
}

/// The state after an item whose category is known, or that has none.
pub open spec fn after_probe(c: CategoryView, probe: Probe) -> CategoryView {
    match probe {
        Probe::Unsupported => c,
        Probe::Uncategorized => CategoryView { names: c.names.push(Seq::empty()), ..c },
        Probe::Category(cat) => if c.known.contains_key(cat) {
            CategoryView { names: c.names.push(c.known[cat]), ..c }
        } else {
            c
        },
    }
}

/// The name of a category in a buffer; empty where the shell gives none.
pub open spec fn category_text(info: Option<Seq<u16>>) -> Seq<char> {
    match info {
        Some(buf) => wide::decoded(wide::before_nul(buf)),
        None => Seq::empty(),
    }
}

impl CategoryNames {
    /// No items, and nothing known.
    pub fn new() -> (r: Self)
        ensures
            r@ == (CategoryView { known: Map::empty(), names: Seq::empty() }),
    {
        broadcast use group_hash_axioms;

        let r = CategoryNames { known: HashMap::new(), names: Vec::new() };
        assert(r@.known =~= Map::empty());
        assert(r@.names =~= Seq::empty());
        r
    }

    /// Takes what the shell says of the next item.
    pub fn probe(&mut self, probe: Probe) -> (r: NameStep)
        ensures
            final(self)@ == after_probe(old(self)@, probe),
            r == (match probe {
                Probe::Unsupported => NameStep::GiveUp,
                Probe::Uncategorized => NameStep::Next,
                Probe::Category(cat) => if old(self)@.known.contains_key(cat) {
                    NameStep::Next
                } else {
                    NameStep::AskName(cat)
                },
            }),
    {
        broadcast use group_hash_axioms;

        let ghost before = self@;
        match probe {
            Probe::Unsupported => NameStep::GiveUp,
            Probe::Uncategorized => {
                self.names.push(String::new());
                assert(self@.names =~= before.names.push(Seq::empty()));
                NameStep::Next
            },
            Probe::Category(cat) => {
                let name = match self.known.get(&cat) {
                    Some(name) => name.clone(),
                    None => {
                        return NameStep::AskName(cat);
                    },
                };
                self.names.push(name);
                assert(self@.names =~= before.names.push(before.known[cat]));
                NameStep::Next
            },
        }
    }

    /// Takes the name of a category that was asked for, which the item gets that asked.
    pub fn learn(&mut self, cat: u32, info: Option<&[u16]>)
        ensures
            final(self)@ == ({
                let name = category_text(shell_items::opt_buffer(info));
                CategoryView {
                    known: old(self)@.known.insert(cat, name),
                    names: old(self)@.names.push(name),
                }
            }),
    {
        broadcast use group_hash_axioms;

        let ghost before = self@;
        let name = match info {
            Some(buf) => buffer_text(buf),
            None => String::new(),
        };
        let ghost text = name@;
        self.names.push(name.clone());
        self.known.insert(cat, name);
        assert(self@.known =~= before.known.insert(cat, text));
        assert(self@.names =~= before.names.push(text));
    }

    /// The names of the groups of the items, in their order.
    pub fn categorizer_names(self) -> (r: Vec<String>)
        ensures
            text::texts(r@) == self@.names,
    {
        self.names
    }
}

/// Once the name of a category is known, every item of that category gets it, without another
/// question, and it stays known.
pub proof fn law_category_is_asked_once(c: CategoryView, cat: u32, name: Seq<char>)
    requires
        c.known.contains_key(cat),
        c.known[cat] == name,
    ensures
        after_probe(c, Probe::Category(cat)).names == c.names.push(name),
        after_probe(c, Probe::Category(cat)).known == c.known,
{
}

// ----- names without the shell -----

/// What there is to show of a group whose items lack the property.
pub const UNSPECIFIED: &'static str = "未指定";

pub const OTHER: &'static str = "其他";

/// The name of the group of an item that many days before today.
pub open spec fn date_group(diff_days: int) -> Seq<char> {
    if diff_days < 0 {
        "以后"@
    } else if diff_days == 0 {
        "今天"@
    } else if diff_days == 1 {
        "昨天"@
    } else if diff_days <= 6 {
        "本周早些时候"@
    } else if diff_days <= 13 {
        "上周"@
    } else if diff_days <= 30 {
        "本月早些时候"@
    } else if diff_days <= 365 {
        "今年早些时候"@
    } else {
        "很久以前"@
    }
}

/// The name of the group of an item that many days before today.
pub fn date_bucket(diff_days: i64) -> (r: &'static str)
    ensures
        r@ == date_group(diff_days as int),
{
    if diff_days < 0 {
        "以后"
    } else if diff_days == 0 {
        "今天"
    } else if diff_days == 1 {
        "昨天"
    } else if diff_days <= 6 {
        "本周早些时候"
    } else if diff_days <= 13 {
        "上周"
    } else if diff_days <= 30 {
        "本月早些时候"
    } else if diff_days <= 365 {
        "今年早些时候"
    } else {
        "很久以前"
    }
}

/// The name of the group of an item of that many bytes.
pub open spec fn size_group(bytes: int) -> Seq<char> {
    if bytes == 0 {
        "0 字节"@
    } else if bytes < 10 * 1024 {
        "微小 (0 - 10 KB)"@
    } else if bytes < 100 * 1024 {
        "小 (10 - 100 KB)"@
    } else if bytes < 1024 * 1024 {
        "中 (100 KB - 1 MB)"@
    } else if bytes < 16 * 1024 * 1024 {
        "大 (1 - 16 MB)"@
    } else if bytes < 128 * 1024 * 1024 {
        "很大 (16 - 128 MB)"@
    } else {
        "巨大 (> 128 MB)"@
    }
}

/// The name of the group of an item of that many bytes.
pub fn size_bucket(bytes: u64) -> (r: &'static str)
    ensures
        r@ == size_group(bytes as int),
{
    if bytes == 0 {
        "0 字节"
    } else if bytes < 10 * 1024 {
        "微小 (0 - 10 KB)"
    } else if bytes < 100 * 1024 {
        "小 (10 - 100 KB)"
    } else if bytes < 1024 * 1024 {
        "中 (100 KB - 1 MB)"
    } else if bytes < 16 * 1024 * 1024 {
        "大 (1 - 16 MB)"
    } else if bytes < 128 * 1024 * 1024 {
        "很大 (16 - 128 MB)"
    } else {
        "巨大 (> 128 MB)"
    }
}

/// The name of the group of an item whose name begins with `c`.
pub open spec fn name_group(c: char) -> Seq<char> {
    if ('a' <= c <= 'z') || ('A' <= c <= 'Z') {
        seq![text::ascii_upper(c)]
    } else if '0' <= c <= '9' {
        "0 - 9"@
    } else {
        OTHER@
    }
}

/// The name of the group of an item whose name begins with `c`.
pub fn name_bucket(c: char) -> (r: String)
    ensures
        r@ == name_group(c),
{
    if ('a' <= c && c <= 'z') || ('A' <= c && c <= 'Z') {
        let mut s = String::new();
        s.push(upper_char(c));
        assert(s@ =~= seq![text::ascii_upper(c)]);
        s
    } else if '0' <= c && c <= '9' {
        "0 - 9".to_owned()
    } else {
        OTHER.to_owned()
    }
}

/// The number of 100-nanosecond steps of a day.
pub const TICKS_PER_DAY: u64 = 864_000_000_000;

/// The day of a point in time, counted from 1601.
pub open spec fn day_of(ft: FileTime) -> int {
    shell_items::ticks(ft) as int / TICKS_PER_DAY as int
}

/// The day of a point in local time, counted from 1601.
pub fn local_day_index(ft: &FileTime) -> (r: i64)
    ensures
        r == day_of(*ft),
        0 <= r <= 21_350_398,
{
    (filetime_ticks(ft) / TICKS_PER_DAY) as i64
}

/// The point in time of a number of milliseconds since 1970.
pub fn unix_to_filetime(unix_ms: i64) -> (r: FileTime)
    requires
        0 <= unix_ms,
        (unix_ms + 11_644_473_600_000) * 10_000 <= u64::MAX,
    ensures
        shell_items::ticks(r) == (unix_ms + 11_644_473_600_000) * 10_000,
        shell_items::unix_ms(r) == unix_ms,
{
    let ticks: u64 = (unix_ms as u64 + 11_644_473_600_000) * 10_000;
    FileTime { low: (ticks % 0x1_0000_0000) as u32, high: (ticks / 0x1_0000_0000) as u32 }
}

/// What an item shows of the property that is grouped by, and its name; what cannot be read is
/// missing. The time is local.
pub struct ItemValue {
    pub time: Option<FileTime>,
    pub size: Option<u64>,
    pub kind: Option<String>,
    pub name: Option<String>,
}

#[verifier::ext_equal]
pub struct ValueView {
    pub time: Option<FileTime>,
    pub size: Option<u64>,
    pub kind: Option<Seq<char>>,
    pub name: Option<Seq<char>>,
}

impl View for ItemValue {
    type V = ValueView;

    open spec fn view(&self) -> ValueView {
        ValueView {
            time: self.time,
            size: self.size,
            kind: text::opt_view(self.kind),
            name: text::opt_view(self.name),
        }
    }
}

pub open spec fn value_views(v: Seq<ItemValue>) -> Seq<ValueView> {
    v.map_values(|i: ItemValue| i@)
}

/// Whether groups can be named for a column without the shell.
pub open spec fn has_buckets(key: Seq<char>) -> bool {
    key == "date"@ || key == "created"@ || key == "size"@ || key == "type"@ || key == "name"@
}

/// The name of the group of an item, by the column that the front end calls `key`.
pub open spec fn bucket(key: Seq<char>, today: int, item: ValueView) -> Seq<char> {
    if key == "date"@ || key == "created"@ {
        match item.time {
            Some(ft) => date_group(today - day_of(ft)),
            None => UNSPECIFIED@,
        }
    } else if key == "size"@ {
        match item.size {
            Some(bytes) => size_group(bytes as int),
            None => UNSPECIFIED@,
        }
    } else if key == "type"@ {
        match item.kind {
            Some(s) if s.len() > 0 => s,
            _ => UNSPECIFIED@,
        }
    } else {
        match item.name {
            Some(s) if s.len() > 0 => name_group(s[0]),
            _ => OTHER@,
        }
    }
}

fn date_label(today: i64, time: Option<FileTime>) -> (r: &'static str)
    requires
        0 <= today <= 21_350_398,
    ensures
        r@ == (match time {
            Some(ft) => date_group(today - day_of(ft)),
            None => UNSPECIFIED@,
        }),
{
    match time {
        Some(ft) => date_bucket(today - local_day_index(&ft)),
        None => UNSPECIFIED,
    }
}

fn fallback_name(key: &str, today: i64, item: &ItemValue) -> (r: String)
    requires
        0 <= today <= 21_350_398,
    ensures
        r@ == bucket(key@, today as int, item@),
{
    if str_eq(key, "date") || str_eq(key, "created") {
        date_label(today, item.time).to_owned()
    } else if str_eq(key, "size") {
        match item.size {
            Some(bytes) => size_bucket(bytes).to_owned(),
            None => UNSPECIFIED.to_owned(),
        }
    } else if str_eq(key, "type") {
        match &item.kind {
            Some(s) => if s.as_str().is_empty() {
                UNSPECIFIED.to_owned()
            } else {
                s.clone()
            },
            None => UNSPECIFIED.to_owned(),
        }
    } else {
        match &item.name {
            Some(s) => {
                let v = chars_of(s.as_str());
                if v.len() > 0 {
                    name_bucket(v[0])
                } else {
                    OTHER.to_owned()
                }
            },
            None => OTHER.to_owned(),
        }
    }
}

/// The day that is today, given the local time; day 0 where that cannot be told.
pub open spec fn today_of(now: Option<FileTime>) -> int {
    match now {
        Some(ft) => day_of(ft),
        None => 0,
    }
}

/// The names of the groups of the items, by the column that the front end calls `key`; none where
/// the column has no groups of its own. A column without a name has none, and neither has an
/// unknown one, unless there are no items.
pub open spec fn bucket_names(key: Option<Seq<char>>, today: int, items: Seq<ValueView>) -> Option<
    Seq<Seq<char>>,
> {
    match key {
        Some(key) => if items.len() == 0 || has_buckets(key) {
            Some(items.map_values(|item: ValueView| bucket(key, today, item)))
        } else {
            None
        },
        None => None,
    }
}

pub open spec fn opt_texts(v: Option<Vec<String>>) -> Option<Seq<Seq<char>>> {
    match v {
        Some(v) => Some(text::texts(v@)),
        None => None,
    }
}

/// The names of the groups of the items, where the shell cannot name them.
pub fn fallback_names(items: &[ItemValue], key: Option<&str>, now: Option<FileTime>) -> (r: Option<
    Vec<String>,
>)
    ensures
        opt_texts(r) == bucket_names(
            shell_items::opt_str(key),
            today_of(now),
            value_views(items@),
        ),
{
    let key = match key {
        Some(key) => key,
        None => return None,
    };
    let today: i64 = match now {
        Some(ft) => local_day_index(&ft),
        None => 0,
    };
    if items.len() > 0 && !(str_eq(key, "date") || str_eq(key, "created") || str_eq(key, "size")
        || str_eq(key, "type") || str_eq(key, "name")) {
        return None;
    }
    let ghost wanted = value_views(items@).map_values(
        |item: ValueView| bucket(key@, today as int, item),
    );
    let mut out: Vec<String> = Vec::new();
    let mut i: usize = 0;
    while i < items.len()
        invariant
            i <= items.len(),
            0 <= today <= 21_350_398,
            wanted == value_views(items@).map_values(
                |item: ValueView| bucket(key@, today as int, item),
            ),
            text::texts(out@) =~= wanted.take(i as int),
        decreases items.len() - i,
    {
        let ghost before = out@;
        out.push(fallback_name(key, today, &items[i]));
        assert(wanted[i as int] == bucket(key@, today as int, items@[i as int]@));
        assert(text::texts(out@) =~= text::texts(before).push(wanted[i as int]));
        i += 1;
    }
    assert(text::texts(out@) =~= wanted);
    Some(out)
}

/// An earlier day never belongs to a later bucket: the buckets are stretches of days.
pub proof fn law_date_buckets_are_stretches(a: int, b: int, c: int)
    requires
        a <= b <= c,
        date_group(a) == date_group(c),
    ensures
        date_group(b) == date_group(a),
{
    reveal_strlit("以后");
    reveal_strlit("今天");
    reveal_strlit("昨天");
    reveal_strlit("本周早些时候");
    reveal_strlit("上周");
    reveal_strlit("本月早些时候");
    reveal_strlit("今年早些时候");
    reveal_strlit("很久以前");
    assert("以后"@[0] != "今天"@[0]);
    assert("以后"@[0] != "昨天"@[0]);
    assert("以后"@[0] != "上周"@[0]);
    assert("今天"@[0] != "昨天"@[0]);
    assert("今天"@[0] != "上周"@[0]);
    assert("昨天"@[0] != "上周"@[0]);
    assert("本周早些时候"@[1] != "本月早些时候"@[1]);
    assert("本周早些时候"@[0] != "今年早些时候"@[0]);
    assert("本月早些时候"@[0] != "今年早些时候"@[0]);
}

/// A date is grouped by the days that lie between it and today.
pub proof fn law_date_groups(days: int)
    ensures
        days < 0 ==> date_group(days) == "以后"@,
        days == 0 ==> date_group(days) == "今天"@,
        days == 1 ==> date_group(days) == "昨天"@,
        2 <= days <= 6 ==> date_group(days) == "本周早些时候"@,
        7 <= days <= 13 ==> date_group(days) == "上周"@,
        14 <= days <= 30 ==> date_group(days) == "本月早些时候"@,
        31 <= days <= 365 ==> date_group(days) == "今年早些时候"@,
        days > 365 ==> date_group(days) == "很久以前"@,
{
}

/// A size is grouped by the bounds that its group names.
pub proof fn law_size_groups(bytes: int)
    requires
        bytes >= 0,
    ensures
        bytes == 0 ==> size_group(bytes) == "0 字节"@,
        1 <= bytes < 10_240 ==> size_group(bytes) == "微小 (0 - 10 KB)"@,
        10_240 <= bytes < 102_400 ==> size_group(bytes) == "小 (10 - 100 KB)"@,
        102_400 <= bytes < 1_048_576 ==> size_group(bytes) == "中 (100 KB - 1 MB)"@,
        1_048_576 <= bytes < 16_777_216 ==> size_group(bytes) == "大 (1 - 16 MB)"@,
        16_777_216 <= bytes < 134_217_728 ==> size_group(bytes) == "很大 (16 - 128 MB)"@,
        134_217_728 <= bytes ==> size_group(bytes) == "巨大 (> 128 MB)"@,
{
}

/// A name is grouped by its first character: a letter in either case by the capital, a digit with
/// the digits, anything else with the rest.
pub proof fn law_name_groups(c: char, k: int)
    ensures
        0 <= k < 26 && (c as u32 == 65 + k || c as u32 == 97 + k) ==> name_group(c).len() == 1
            && name_group(c)[0] as u32 == 65 + k,
        48 <= c as u32 <= 57 ==> name_group(c) == "0 - 9"@,
        !(48 <= c as u32 <= 57) && !(65 <= c as u32 <= 90) && !(97 <= c as u32 <= 122)
            ==> name_group(c) == "其他"@,
{
}

/// Points in time of one day have the same day, and the next day begins a day later.
pub proof fn law_days(ft: FileTime, k: int)
    ensures
        k * 864_000_000_000 <= ft.high * 0x1_0000_0000 + ft.low < (k + 1) * 864_000_000_000
            ==> day_of(ft) == k,
        today_of(Some(ft)) == day_of(ft),
        today_of(None) == 0,
{
    let t = shell_items::ticks(ft) as int;
    if k * 864_000_000_000 <= t < (k + 1) * 864_000_000_000 {
        assert(t / 864_000_000_000 == k) by (nonlinear_arith)
            requires
                k * 864_000_000_000 <= t < (k + 1) * 864_000_000_000,
        ;
    }
}

/// Items are grouped by the value of the column alone: the dates by the days since, the size, the
/// type as it is, or the first character of the name. What has no value is in a group of its own.
pub proof fn law_buckets(today: int, item: ValueView)
    ensures
        item.time matches Some(ft) ==> bucket("date"@, today, item) == date_group(
            today - day_of(ft),
        ) && bucket("created"@, today, item) == date_group(today - day_of(ft)),
        item.time is None ==> bucket("date"@, today, item) == "未指定"@ && bucket(
            "created"@,
            today,
            item,
        ) == "未指定"@,
        item.size matches Some(n) ==> bucket("size"@, today, item) == size_group(n as int),
        item.size is None ==> bucket("size"@, today, item) == "未指定"@,
        item.kind matches Some(s) ==> (s.len() > 0 ==> bucket("type"@, today, item) == s),
        item.kind is None || item.kind->0.len() == 0 ==> bucket("type"@, today, item) == "未指定"@,
        item.name matches Some(s) ==> (s.len() > 0 ==> bucket("name"@, today, item) == name_group(
            s[0],
        )),
        item.name is None || item.name->0.len() == 0 ==> bucket("name"@, today, item) == "其他"@,
{
    reveal_strlit("date");
    reveal_strlit("created");
    reveal_strlit("size");
    reveal_strlit("type");
    reveal_strlit("name");
    assert("date"@[0] == 'd' && "created"@[0] == 'c' && "size"@[0] == 's' && "type"@[0] == 't'
        && "name"@[0] == 'n');
}

/// Five columns have groups of their own; every item has one of them, in the items' order.
pub proof fn law_bucket_names(key: Seq<char>, today: int, items: Seq<ValueView>, i: int)
    ensures
        has_buckets(key) <==> key == "date"@ || key == "created"@ || key == "size"@ || key
            == "type"@ || key == "name"@,
        bucket_names(None, today, items) is None,
        bucket_names(Some(key), today, items) is None <==> items.len() > 0 && !has_buckets(key),
        bucket_names(Some(key), today, items) matches Some(names) ==> names.len() == items.len()
            && (0 <= i < items.len() ==> names[i] == bucket(key, today, items[i])),
{
}

/// Which of two items comes first: the one of the lower rank in ascending order, of the higher in
/// descending order, and of equal ones the one that came first.
pub proof fn law_order(rank: spec_fn(int) -> int, a: usize, b: usize)
    ensures
        rank(a as int) < rank(b as int) ==> comes_before(rank, true, a, b) && !comes_before(
            rank,
            true,
            b,
            a,
        ) && comes_before(rank, false, b, a) && !comes_before(rank, false, a, b),
        rank(a as int) == rank(b as int) && a < b ==> comes_before(rank, true, a, b)
            && comes_before(rank, false, a, b) && !comes_before(rank, true, b, a) && !comes_before(
            rank,
            false,
            b,
            a,
        ),
{
}

/// The groups stand in the order in which their first items do, each once.
pub proof fn law_groups(names: Seq<Seq<char>>, order: Seq<usize>, k: usize)
    ensures
        groups(names, Seq::empty()).len() == 0,
        groups(names, order).contains(names[k as int]) ==> groups(names, order.push(k)) == groups(
            names,
            order,
        ),
        !groups(names, order).contains(names[k as int]) ==> groups(names, order.push(k)) == groups(
            names,
            order,
        ).push(names[k as int]),
{
    assert(order.push(k).drop_last() =~= order);
}

/// What an answer adds to the names: nothing where the item cannot be asked, an empty name where it
/// has no category, and the name of its category where that is known. No name is forgotten.
pub proof fn law_probes(c: CategoryView, cat: u32)
    ensures
        after_probe(c, Probe::Unsupported) == c,
        after_probe(c, Probe::Uncategorized).names == c.names.push(""@),
        after_probe(c, Probe::Uncategorized).known == c.known,
        c.known.contains_key(cat) ==> after_probe(c, Probe::Category(cat)).names == c.names.push(
            c.known[cat],
        ),
        !c.known.contains_key(cat) ==> after_probe(c, Probe::Category(cat)).names == c.names,
        after_probe(c, Probe::Category(cat)).known == c.known,
{
    reveal_strlit("");
    assert(""@ =~= Seq::<char>::empty());
}

/// The name of a category is what stands before the first zero; without an answer it is empty.
pub proof fn law_category_text(units: Seq<u16>, rest: Seq<u16>)
    requires
        !units.contains(0),
    ensures
        category_text(Some(units + seq![0u16] + rest)) == wide::decoded(units),
        category_text(Some(units)) == wide::decoded(units),
        category_text(None).len() == 0,
{
    wide::law_before_nul(units, rest);
}

} // verus!
