use vstd::prelude::*;
use std::collections::{HashMap, HashSet};

use crate::data::movie_views;
use crate::text::{char_rows, chars_of};
use crate::types::{ItemId, Movie, MovieView, string_rows};

verus! {

broadcast use vstd::std_specs::hash::group_hash_axioms;

/// How many of the first `n` recommended ids are relevant.
pub open spec fn hits(ids: Seq<ItemId>, relevant: Set<ItemId>, n: int) -> nat
    decreases n,
{
    if n <= 0 || ids.len() == 0 {
        0
    } else if n > ids.len() {
        hits(ids, relevant, ids.len() as int)
    } else {
        hits(ids, relevant, n - 1) + if relevant.contains(ids[n - 1]) {
            1nat
        } else {
            0nat
        }
    }
}

/// The hit count of the first `n` recommendations never exceeds `n` nor the list
/// length, is that whole number when every one of them is relevant, is zero when
/// none is, and grows by one exactly when the next recommendation is relevant.
pub proof fn lemma_hits_bounds(ids: Seq<ItemId>, relevant: Set<ItemId>, n: int)
    requires
        0 <= n,
    ensures
        hits(ids, relevant, n) <= n,
        hits(ids, relevant, n) <= ids.len(),
        (forall|j: int| 0 <= j < n && j < ids.len() ==> relevant.contains(#[trigger] ids[j]))
            ==> hits(ids, relevant, n) == if n < ids.len() { n } else { ids.len() as int },
        (forall|j: int| 0 <= j < n && j < ids.len() ==> !relevant.contains(#[trigger] ids[j]))
            ==> hits(ids, relevant, n) == 0,
        n < ids.len() ==> hits(ids, relevant, n + 1) == hits(ids, relevant, n) + if relevant.contains(
            ids[n],
        ) {
            1int
        } else {
            0int
        },
    decreases n,
{
    if n > ids.len() {
        lemma_hits_bounds(ids, relevant, ids.len() as int);
    } else if n > 0 && ids.len() > 0 {
        lemma_hits_bounds(ids, relevant, n - 1);
    }
}

/// Counts the relevant movies among the first `top_n` recommendations.
pub fn hit_count_at_n(ids: &Vec<ItemId>, relevant: &HashSet<ItemId>, top_n: usize) -> (count: usize)
    ensures
        count == hits(ids@, relevant@, top_n as int),
        count <= top_n,
        count <= ids@.len(),
{
    let n = if top_n < ids.len() {
        top_n
    } else {
        ids.len()
    };
    let mut count: usize = 0;
    for i in 0..n
        invariant
            n <= ids@.len(),
            n <= top_n,
            count == hits(ids@, relevant@, i as int),
            count <= i,
    {
        if relevant.contains(&ids[i]) {
            count = count + 1;
        }
    }
    assert(hits(ids@, relevant@, top_n as int) == hits(ids@, relevant@, n as int));
    count
}

/// The genre names of the movies of the first `n` recommended ids that are in the
/// catalogue, movie after movie, repetitions kept.
pub open spec fn genre_slots(ids: Seq<ItemId>, movies: Map<ItemId, MovieView>, n: int) -> Seq<Seq<char>>
    decreases n,
{
    if n <= 0 || ids.len() == 0 {
        Seq::empty()
    } else if n > ids.len() {
        genre_slots(ids, movies, ids.len() as int)
    } else {
        genre_slots(ids, movies, n - 1) + if movies.contains_key(ids[n - 1]) {
            movies[ids[n - 1]].genres
        } else {
            Seq::empty()
        }
    }
}

proof fn lemma_genre_slots_grow(ids: Seq<ItemId>, movies: Map<ItemId, MovieView>, i: int, j: int)
    requires
        0 <= i <= j <= ids.len(),
    ensures
        genre_slots(ids, movies, i).len() <= genre_slots(ids, movies, j).len(),
    decreases j - i,
{
    if i < j {
        lemma_genre_slots_grow(ids, movies, i, j - 1);
    }
}

/// The distinct texts of `s`, in order of first appearance.
pub open spec fn distinct_texts(s: Seq<Seq<char>>) -> Seq<Seq<char>>
    decreases s.len(),
{
    if s.len() == 0 {
        Seq::empty()
    } else if s.drop_last().contains(s.last()) {
        distinct_texts(s.drop_last())
    } else {
        distinct_texts(s.drop_last()).push(s.last())
    }
}

pub proof fn lemma_distinct_texts_contains(s: Seq<Seq<char>>, t: Seq<char>)
    ensures
        distinct_texts(s).contains(t) <==> s.contains(t),
    decreases s.len(),
{
    if s.len() > 0 {
        lemma_distinct_texts_contains(s.drop_last(), t);
        let d = distinct_texts(s.drop_last());
        if s.contains(t) {
            let j = choose|j: int| 0 <= j < s.len() && s[j] == t;
            if j < s.len() - 1 {
                assert(s.drop_last()[j] == t);
            }
        }
        if s.drop_last().contains(t) {
            let j = choose|j: int| 0 <= j < s.drop_last().len() && s.drop_last()[j] == t;
            assert(s[j] == t);
        }
        if !s.drop_last().contains(s.last()) {
            if d.push(s.last()).contains(t) {
                let j = choose|j: int| 0 <= j < d.push(s.last()).len() && d.push(s.last())[j] == t;
                if j < d.len() {
                    assert(d[j] == t);
                }
            }
            if d.contains(t) {
                let j = choose|j: int| 0 <= j < d.len() && d[j] == t;
                assert(d.push(s.last())[j] == t);
            }
            assert(d.push(s.last())[d.len() as int] == s.last());
            assert(s[s.len() - 1] == s.last());
        }
    }
}

/// Tests whether a list of texts holds a text.
pub fn contains_text(list: &Vec<Vec<char>>, t: &Vec<char>) -> (found: bool)
    ensures
        found == char_rows(list@).contains(t@),
{
    for i in 0..list.len()
        invariant
            forall|j: int| 0 <= j < i ==> char_rows(list@)[j] != t@,
    {
        if crate::text::same_chars(&list[i], t) {
            assert(char_rows(list@)[i as int] == t@);
            return true;
        }
    }
    false
}

/// For the genre diversity of the first `top_n` recommendations: the number of
/// distinct genre names among their catalogue movies, and the number of genre
/// slots (genre names counted with repetition).
pub fn genre_diversity_counts(ids: &Vec<ItemId>, movies: &HashMap<ItemId, Movie>, top_n: usize) -> (counts: (usize, usize))
    requires
        genre_slots(ids@, movie_views(movies@), top_n as int).len() <= usize::MAX,
    ensures
        counts.0 == distinct_texts(genre_slots(ids@, movie_views(movies@), top_n as int)).len(),
        counts.1 == genre_slots(ids@, movie_views(movies@), top_n as int).len(),
{
    let n = if top_n < ids.len() {
        top_n
    } else {
        ids.len()
    };
    let ghost mv = movie_views(movies@);
    assert(genre_slots(ids@, mv, top_n as int) == genre_slots(ids@, mv, n as int));
    let mut distinct: Vec<Vec<char>> = Vec::new();
    let mut slots: usize = 0;
    let ghost mut all: Seq<Seq<char>> = Seq::empty();
    for i in 0..n
        invariant
            n <= ids@.len(),
            n <= top_n,
            mv == movie_views(movies@),
            all == genre_slots(ids@, mv, i as int),
            slots == all.len(),
            char_rows(distinct@) == distinct_texts(all),
            distinct@.len() <= slots,
            i <= n,
            genre_slots(ids@, mv, n as int).len() <= usize::MAX,
            genre_slots(ids@, mv, top_n as int) == genre_slots(ids@, mv, n as int),
    {
        let ghost before = all;
        proof {
            lemma_genre_slots_grow(ids@, mv, i + 1, n as int);
        }
        match movies.get(&ids[i]) {
            Some(movie) => {
                assert(mv.contains_key(ids@[i as int]));
                assert(mv[ids@[i as int]] == movie@);
                let gs = &movie.genres;
                for k in 0..gs.len()
                    invariant
                        gs@ == movie.genres@,
                        all == before + string_rows(gs@).take(k as int),
                        slots == all.len(),
                        char_rows(distinct@) == distinct_texts(all),
                        distinct@.len() <= slots,
                        mv.contains_key(ids@[i as int]),
                        mv[ids@[i as int]].genres == string_rows(gs@),
                        before == genre_slots(ids@, mv, i as int),
                        genre_slots(ids@, mv, i + 1).len() <= usize::MAX,
                        i < n,
                        n <= ids@.len(),
                {
                    let g = chars_of(gs[k].as_str());
                    assert(string_rows(gs@)[k as int] == g@);
                    let ghost prev = all;
                    proof {
                        all = all.push(g@);
                        assert(all == before + string_rows(gs@).take(k + 1)) by {
                            assert(string_rows(gs@).take(k + 1) =~= string_rows(gs@).take(k as int).push(g@));
                        }
                        assert(all.drop_last() =~= prev);
                        lemma_distinct_texts_contains(prev, g@);
                    }
                    if !contains_text(&distinct, &g) {
                        let ghost d0 = char_rows(distinct@);
                        distinct.push(g);
                        assert(char_rows(distinct@) =~= d0.push(g@));
                    }
                    slots = slots + 1;
                }
                assert(string_rows(gs@).take(gs@.len() as int) =~= string_rows(gs@));
            },
            None => {
                assert(!mv.contains_key(ids@[i as int]));
                assert(before + Seq::<Seq<char>>::empty() =~= before);
            },
        }
        assert(all == genre_slots(ids@, mv, i + 1));
    }
    (distinct.len(), slots)
}


/// Rating `a` of a user comes before rating `b` in time order: an earlier
/// timestamp, or the same timestamp and an earlier position (a stable order).
pub open spec fn comes_before(ts: Seq<u64>, a: usize, b: usize) -> bool {
    ts[a as int] < ts[b as int] || (ts[a as int] == ts[b as int] && a < b)
}

/// `order` lists every position of `ts` once, in time order.
pub open spec fn time_sorted(ts: Seq<u64>, order: Seq<usize>) -> bool {
    &&& order.len() == ts.len()
    &&& forall|j: int| 0 <= j < order.len() ==> (#[trigger] order[j]) < ts.len()
    &&& forall|j: int, k: int|
        0 <= j < k < order.len() ==> comes_before(ts, #[trigger] order[j], #[trigger] order[k])
}

/// How many of a user's `len` ratings are held out for testing, given the
/// requested count rounded from the holdout ratio: none for a single rating, else
/// the requested count kept between one and `len - 1`.
pub open spec fn holdout_count(len: nat, requested: nat) -> nat {
    if len <= 1 {
        0
    } else if requested < 1 {
        1
    } else if requested > len - 1 {
        (len - 1) as nat
    } else {
        requested
    }
}

/// Splits one user's ratings (given by their timestamps) into training and test
/// positions: the ratings in time order, the last `holdout_count` of them for
/// testing and the others for training.
pub fn split_user_holdout(ts: &Vec<u64>, requested: usize) -> (split: (Vec<usize>, Vec<usize>))
    ensures
        time_sorted(ts@, split.0@ + split.1@),
        split.1@.len() == holdout_count(ts@.len(), requested as nat),
        ts@.len() <= 1 ==> split.1@.len() == 0,
        ts@.len() >= 2 && 1 <= requested && requested + 1 <= ts@.len() ==> split.1@.len() == requested,
        ts@.len() >= 2 && requested == 0 ==> split.1@.len() == 1,
        ts@.len() >= 2 && requested >= ts@.len() ==> split.1@.len() == ts@.len() - 1,
        split.0@.len() + split.1@.len() == ts@.len(),
        forall|p: usize| p < ts@.len() ==> #[trigger] (split.0@ + split.1@).contains(p),
        forall|j: int, k: int|
            0 <= j < k < split.0@.len() + split.1@.len() ==> {
                let a = #[trigger] (split.0@ + split.1@)[j];
                let b = #[trigger] (split.0@ + split.1@)[k];
                ts@[a as int] < ts@[b as int] || (ts@[a as int] == ts@[b as int] && a < b)
            },
        forall|a: int, b: int|
            0 <= a < split.0@.len() && 0 <= b < split.1@.len() ==> ts@[#[trigger] split.0@[a] as int]
                <= ts@[#[trigger] split.1@[b] as int],
{
    proof {
        lemma_holdout_size(ts@.len(), requested as nat);
    }
    let n = ts.len();
    let mut order: Vec<usize> = Vec::new();
    for i in 0..n
        invariant
            n == ts@.len(),
            order@.len() == i,
            forall|j: int| 0 <= j < order@.len() ==> (#[trigger] order@[j]) < i,
            forall|j: int, k: int|
                0 <= j < k < order@.len() ==> comes_before(ts@, #[trigger] order@[j], #[trigger] order@[k]),
            forall|q: usize| q < i ==> #[trigger] order@.contains(q),
    {
        let t = ts[i];
        let mut p: usize = 0;
        while p < order.len() && ts[order[p]] <= t
            invariant
                n == ts@.len(),
                order@.len() == i,
                i < n,
                t == ts@[i as int],
                p <= order@.len(),
                forall|j: int| 0 <= j < order@.len() ==> (#[trigger] order@[j]) < i,
                forall|j: int| 0 <= j < p ==> ts@[(#[trigger] order@[j]) as int] <= t,
            decreases order@.len() - p,
        {
            p = p + 1;
        }
        let ghost old_order = order@;
        proof {
            if p < old_order.len() {
                assert forall|j: int| p <= j < old_order.len() implies ts@[(#[trigger] old_order[j]) as int] > t by {
                    if j > p {
                        assert(comes_before(ts@, old_order[p as int], old_order[j]));
                    }
                }
            }
        }
        order.insert(p, i);
        assert(order@ == old_order.insert(p as int, i));
        assert forall|q: usize| q < i + 1 implies #[trigger] order@.contains(q) by {
            if q < i {
                assert(old_order.contains(q));
                let j = choose|j: int| 0 <= j < old_order.len() && old_order[j] == q;
                if j < p {
                    assert(order@[j] == q);
                } else {
                    assert(order@[j + 1] == q);
                }
            } else {
                assert(order@[p as int] == i);
            }
        }
        assert forall|j: int, k: int|
            0 <= j < k < order@.len() implies comes_before(ts@, #[trigger] order@[j], #[trigger] order@[k]) by {
            if k < p {
                assert(order@[j] == old_order[j] && order@[k] == old_order[k]);
            } else if k == p {
                assert(order@[j] == old_order[j]);
            } else if j < p {
                assert(order@[j] == old_order[j] && order@[k] == old_order[k - 1]);
            } else if j == p {
                assert(order@[k] == old_order[k - 1]);
            } else {
                assert(order@[j] == old_order[j - 1] && order@[k] == old_order[k - 1]);
            }
        }
        assert forall|j: int| 0 <= j < order@.len() implies (#[trigger] order@[j]) < i + 1 by {
            if j < p {
                assert(order@[j] == old_order[j]);
            } else if j > p {
                assert(order@[j] == old_order[j - 1]);
            }
        }
    }
    let test_n: usize = if n <= 1 {
        0
    } else if requested < 1 {
        1
    } else if requested > n - 1 {
        n - 1
    } else {
        requested
    };
    let cut = n - test_n;
    let mut train: Vec<usize> = Vec::new();
    let mut test: Vec<usize> = Vec::new();
    for j in 0..n
        invariant
            n == order@.len(),
            cut <= n,
            train@ == order@.take(if j < cut { j as int } else { cut as int }),
            test@ == if j < cut { Seq::<usize>::empty() } else { order@.subrange(cut as int, j as int) },
    {
        if j >= cut {
            test.push(order[j]);
            assert(order@.subrange(cut as int, j + 1) =~= order@.subrange(cut as int, j as int).push(order@[j as int]));
        } else {
            train.push(order[j]);
            assert(order@.take(j + 1) =~= order@.take(j as int).push(order@[j as int]));
            if j + 1 == cut {
                assert(order@.subrange(cut as int, cut as int) =~= Seq::<usize>::empty());
            }
        }
    }
    if n == cut {
        assert(test@ =~= Seq::<usize>::empty());
    }
    assert(train@ + test@ =~= order@);
    proof {
        lemma_holdout_respects_time(ts@, train@, test@, requested as nat);
    }
    (train, test)
}

/// The number of held-out ratings is the requested number whenever that leaves at
/// least one training rating and holds out at least one; otherwise it is kept
/// between one and all but one, and a single rating is never held out.
pub proof fn lemma_holdout_size(len: nat, requested: nat)
    ensures
        len <= 1 ==> holdout_count(len, requested) == 0,
        len >= 2 && 1 <= requested && requested + 1 <= len ==> holdout_count(len, requested) == requested,
        len >= 2 && requested == 0 ==> holdout_count(len, requested) == 1,
        len >= 2 && requested >= len ==> holdout_count(len, requested) == len - 1,
{
}

/// A user's held-out test ratings are the latest ones: with two or more ratings,
/// both parts are non-empty, and no training rating is later than a test rating.
pub proof fn lemma_holdout_respects_time(ts: Seq<u64>, train: Seq<usize>, test: Seq<usize>, requested: nat)
    requires
        time_sorted(ts, train + test),
        test.len() == holdout_count(ts.len(), requested),
    ensures
        ts.len() >= 2 ==> train.len() >= 1 && test.len() >= 1,
        forall|a: int, b: int|
            0 <= a < train.len() && 0 <= b < test.len() ==> ts[#[trigger] train[a] as int] <= ts[#[trigger] test[b] as int],
{
    let all = train + test;
    assert forall|a: int, b: int|
        0 <= a < train.len() && 0 <= b < test.len() implies ts[#[trigger] train[a] as int] <= ts[#[trigger] test[b] as int] by {
        assert(all[a] == train[a]);
        assert(all[train.len() + b] == test[b]);
        assert(comes_before(ts, all[a], all[train.len() + b]));
    }
}

} // verus!
