use vstd::prelude::*;
use std::collections::HashMap;

use crate::data::movie_views;
use crate::eval::distinct_texts;
use crate::text::char_rows;
use crate::types::{ItemId, Movie, MovieView, string_rows};

verus! {

broadcast use vstd::std_specs::hash::group_hash_axioms;

/// How a user's rating of a movie counts for the knowledge rules.
#[derive(Clone, Copy, Debug, PartialEq, Eq, Structural)]
pub enum Verdict {
    /// A rating of four stars or more.
    Liked,
    /// A rating of two stars or less.
    Disliked,
    /// Any other rating.
    Neutral,
}

/// The genre names of the disliked movies (those in the catalogue) of a user's
/// history, in history order, repetitions kept.
pub open spec fn disliked_genres(history: Seq<(ItemId, Verdict)>, movies: Map<ItemId, MovieView>) -> Seq<Seq<char>>
    decreases history.len(),
{
    if history.len() == 0 {
        Seq::empty()
    } else {
        let (id, v) = history.last();
        disliked_genres(history.drop_last(), movies) + if v == Verdict::Disliked && movies.contains_key(id) {
            movies[id].genres
        } else {
            Seq::empty()
        }
    }
}

/// The release years of the liked movies (those in the catalogue with a known
/// year) of a user's history, in history order.
pub open spec fn liked_years(history: Seq<(ItemId, Verdict)>, movies: Map<ItemId, MovieView>) -> Seq<u16>
    decreases history.len(),
{
    if history.len() == 0 {
        Seq::empty()
    } else {
        let (id, v) = history.last();
        let earlier = liked_years(history.drop_last(), movies);
        if v == Verdict::Liked && movies.contains_key(id) && movies[id].release_year is Some {
            earlier.push(movies[id].release_year->0)
        } else {
            earlier
        }
    }
}

/// The smallest and largest of a sequence of years, if there is one.
pub open spec fn year_range_of(years: Seq<u16>) -> Option<(u16, u16)>
    decreases years.len(),
{
    if years.len() == 0 {
        None
    } else {
        let y = years.last();
        match year_range_of(years.drop_last()) {
            None => Some((y, y)),
            Some((lo, hi)) => Some((if y < lo { y } else { lo }, if y > hi { y } else { hi })),
        }
    }
}

/// The year range of a non-empty sequence of years is made of two of its years and
/// holds every one of them.
pub proof fn lemma_year_range_bounds(years: Seq<u16>)
    requires
        years.len() > 0,
    ensures
        year_range_of(years) matches Some((lo, hi)) && years.contains(lo) && years.contains(hi)
            && forall|j: int| 0 <= j < years.len() ==> lo <= #[trigger] years[j] <= hi,
    decreases years.len(),
{
    let y = years.last();
    let init = years.drop_last();
    assert(years[years.len() - 1] == y);
    if init.len() > 0 {
        lemma_year_range_bounds(init);
        let (lo0, hi0) = year_range_of(init)->0;
        assert forall|j: int| 0 <= j < init.len() implies init[j] == years[j] by {}
        let q1 = choose|q: int| 0 <= q < init.len() && init[q] == lo0;
        let q2 = choose|q: int| 0 <= q < init.len() && init[q] == hi0;
        assert(years[q1] == lo0 && years[q2] == hi0);
    }
}

proof fn lemma_liked_years_contains(history: Seq<(ItemId, Verdict)>, movies: Map<ItemId, MovieView>, y: u16)
    ensures
        liked_years(history, movies).contains(y) <==> exists|j: int|
            0 <= j < history.len() && (#[trigger] history[j]).1 == Verdict::Liked
                && movies.contains_key(history[j].0) && movies[history[j].0].release_year == Some(y),
    decreases history.len(),
{
    if history.len() > 0 {
        let init = history.drop_last();
        lemma_liked_years_contains(init, movies, y);
        let e = liked_years(init, movies);
        let (id, v) = history.last();
        assert(history[history.len() - 1] == history.last());
        if exists|j: int|
            0 <= j < history.len() && (#[trigger] history[j]).1 == Verdict::Liked
                && movies.contains_key(history[j].0) && movies[history[j].0].release_year == Some(y) {
            let j = choose|j: int|
                0 <= j < history.len() && (#[trigger] history[j]).1 == Verdict::Liked
                    && movies.contains_key(history[j].0) && movies[history[j].0].release_year == Some(y);
            if j < history.len() - 1 {
                assert(init[j] == history[j]);
                let k = choose|k: int| 0 <= k < e.len() && e[k] == y;
                if v == Verdict::Liked && movies.contains_key(id) && movies[id].release_year is Some {
                    assert(liked_years(history, movies)[k] == y);
                }
            } else {
                assert(liked_years(history, movies) == e.push(y));
                assert(liked_years(history, movies)[e.len() as int] == y);
            }
        }
        if liked_years(history, movies).contains(y) {
            let k = choose|k: int| 0 <= k < liked_years(history, movies).len() && liked_years(history, movies)[k] == y;
            if k < e.len() {
                if v == Verdict::Liked && movies.contains_key(id) && movies[id].release_year is Some {
                    assert(liked_years(history, movies)[k] == e[k]);
                }
                assert(e[k] == y);
                let j = choose|j: int|
                    0 <= j < init.len() && (#[trigger] init[j]).1 == Verdict::Liked
                        && movies.contains_key(init[j].0) && movies[init[j].0].release_year == Some(y);
                assert(history[j] == init[j]);
            } else {
                assert(history[history.len() - 1].1 == Verdict::Liked);
            }
        }
    }
}

proof fn lemma_disliked_genres_contains(history: Seq<(ItemId, Verdict)>, movies: Map<ItemId, MovieView>, t: Seq<char>)
    ensures
        disliked_genres(history, movies).contains(t) <==> exists|j: int|
            0 <= j < history.len() && (#[trigger] history[j]).1 == Verdict::Disliked
                && movies.contains_key(history[j].0) && movies[history[j].0].genres.contains(t),
    decreases history.len(),
{
    if history.len() > 0 {
        let init = history.drop_last();
        lemma_disliked_genres_contains(init, movies, t);
        let e = disliked_genres(init, movies);
        let (id, v) = history.last();
        assert(history[history.len() - 1] == history.last());
        let extra = if v == Verdict::Disliked && movies.contains_key(id) {
            movies[id].genres
        } else {
            Seq::empty()
        };
        let whole = disliked_genres(history, movies);
        assert(whole == e + extra);
        if exists|j: int|
            0 <= j < history.len() && (#[trigger] history[j]).1 == Verdict::Disliked
                && movies.contains_key(history[j].0) && movies[history[j].0].genres.contains(t) {
            let j = choose|j: int|
                0 <= j < history.len() && (#[trigger] history[j]).1 == Verdict::Disliked
                    && movies.contains_key(history[j].0) && movies[history[j].0].genres.contains(t);
            if j < history.len() - 1 {
                assert(init[j] == history[j]);
                let k = choose|k: int| 0 <= k < e.len() && e[k] == t;
                assert(whole[k] == t);
            } else {
                let k = choose|k: int| 0 <= k < extra.len() && extra[k] == t;
                assert(whole[e.len() + k] == t);
            }
        }
        if whole.contains(t) {
            let k = choose|k: int| 0 <= k < whole.len() && whole[k] == t;
            if k < e.len() {
                assert(whole[k] == e[k]);
                let j = choose|j: int|
                    0 <= j < init.len() && (#[trigger] init[j]).1 == Verdict::Disliked
                        && movies.contains_key(init[j].0) && movies[init[j].0].genres.contains(t);
                assert(history[j] == init[j]);
            } else {
                assert(whole[k] == extra[k - e.len()]);
                assert(extra.contains(t));
                assert(extra.len() > 0);
            }
        }
    }
}

/// The rule facts come from the history as the knowledge rules describe: a genre is
/// rejected exactly when it is a genre of a catalogue movie the history marks
/// disliked; the year range runs between release years of catalogue movies the
/// history marks liked, covers every such year, and is absent exactly when there is
/// no such year.
pub proof fn lemma_rule_facts_of_history(history: Seq<(ItemId, Verdict)>, movies: Map<ItemId, MovieView>)
    ensures
        forall|t: Seq<char>|
            #[trigger] distinct_texts(disliked_genres(history, movies)).contains(t) <==> exists|j: int|
                0 <= j < history.len() && (#[trigger] history[j]).1 == Verdict::Disliked
                    && movies.contains_key(history[j].0) && movies[history[j].0].genres.contains(t),
        year_range_of(liked_years(history, movies)) matches Some((lo, hi)) ==> {
            &&& exists|j: int|
                0 <= j < history.len() && (#[trigger] history[j]).1 == Verdict::Liked
                    && movies.contains_key(history[j].0) && movies[history[j].0].release_year == Some(lo)
            &&& exists|j: int|
                0 <= j < history.len() && (#[trigger] history[j]).1 == Verdict::Liked
                    && movies.contains_key(history[j].0) && movies[history[j].0].release_year == Some(hi)
            &&& forall|j: int|
                0 <= j < history.len() && (#[trigger] history[j]).1 == Verdict::Liked
                    && movies.contains_key(history[j].0) && movies[history[j].0].release_year is Some ==> lo
                    <= movies[history[j].0].release_year->0 <= hi
        },
        year_range_of(liked_years(history, movies)) is None <==> forall|j: int|
            0 <= j < history.len() ==> !((#[trigger] history[j]).1 == Verdict::Liked
                && movies.contains_key(history[j].0) && movies[history[j].0].release_year is Some),
{
    assert forall|t: Seq<char>|
        #[trigger] distinct_texts(disliked_genres(history, movies)).contains(t) <==> exists|j: int|
            0 <= j < history.len() && (#[trigger] history[j]).1 == Verdict::Disliked
                && movies.contains_key(history[j].0) && movies[history[j].0].genres.contains(t) by {
        crate::eval::lemma_distinct_texts_contains(disliked_genres(history, movies), t);
        lemma_disliked_genres_contains(history, movies, t);
    }
    let years = liked_years(history, movies);
    if years.len() > 0 {
        lemma_year_range_bounds(years);
        let (lo, hi) = year_range_of(years)->0;
        lemma_liked_years_contains(history, movies, lo);
        lemma_liked_years_contains(history, movies, hi);
        assert forall|j: int|
            0 <= j < history.len() && (#[trigger] history[j]).1 == Verdict::Liked
                && movies.contains_key(history[j].0) && movies[history[j].0].release_year is Some implies lo
                <= movies[history[j].0].release_year->0 <= hi by {
            let y = movies[history[j].0].release_year->0;
            lemma_liked_years_contains(history, movies, y);
            let k = choose|k: int| 0 <= k < years.len() && years[k] == y;
        }
        lemma_liked_years_contains(history, movies, years[0]);
        assert(years.contains(years[0]));
    } else {
        assert forall|j: int|
            0 <= j < history.len() implies !((#[trigger] history[j]).1 == Verdict::Liked
                && movies.contains_key(history[j].0) && movies[history[j].0].release_year is Some) by {
            if history[j].1 == Verdict::Liked && movies.contains_key(history[j].0) && movies[history[j].0].release_year is Some {
                let y = movies[history[j].0].release_year->0;
                lemma_liked_years_contains(history, movies, y);
            }
        }
    }
}

/// The rule facts of a user's history: the rejected genres (every genre of a
/// disliked movie, each once, in order of first appearance) and the range of the
/// release years of the liked movies.
pub fn preference_facts(history: &Vec<(ItemId, Verdict)>, movies: &HashMap<ItemId, Movie>) -> (facts: (Vec<String>, Option<(u16, u16)>))
    ensures
        string_rows(facts.0@) == distinct_texts(disliked_genres(history@, movie_views(movies@))),
        facts.1 == year_range_of(liked_years(history@, movie_views(movies@))),
        forall|t: Seq<char>|
            #[trigger] string_rows(facts.0@).contains(t) <==> exists|j: int|
                0 <= j < history@.len() && (#[trigger] history@[j]).1 == Verdict::Disliked
                    && movie_views(movies@).contains_key(history@[j].0) && movie_views(
                    movies@,
                )[history@[j].0].genres.contains(t),
        facts.1 matches Some((lo, hi)) ==> {
            &&& exists|j: int|
                0 <= j < history@.len() && (#[trigger] history@[j]).1 == Verdict::Liked
                    && movies@.contains_key(history@[j].0)
                    && movies@[history@[j].0].release_year == Some(lo)
            &&& exists|j: int|
                0 <= j < history@.len() && (#[trigger] history@[j]).1 == Verdict::Liked
                    && movies@.contains_key(history@[j].0)
                    && movies@[history@[j].0].release_year == Some(hi)
            &&& forall|j: int|
                0 <= j < history@.len() && (#[trigger] history@[j]).1 == Verdict::Liked
                    && movies@.contains_key(history@[j].0)
                    && movies@[history@[j].0].release_year is Some ==> lo
                    <= movies@[history@[j].0].release_year->0 <= hi
        },
        facts.1 is None <==> forall|j: int|
            0 <= j < history@.len() ==> !((#[trigger] history@[j]).1 == Verdict::Liked
                && movies@.contains_key(history@[j].0)
                && movies@[history@[j].0].release_year is Some),
{
    proof {
        lemma_rule_facts_of_history(history@, movie_views(movies@));
    }
    let ghost mv = movie_views(movies@);
    let mut rejected: Vec<String> = Vec::new();
    let mut seen: Vec<Vec<char>> = Vec::new();
    let ghost mut all: Seq<Seq<char>> = Seq::empty();
    let mut lo: u16 = 0;
    let mut hi: u16 = 0;
    let mut any_year = false;
    for i in 0..history.len()
        invariant
            mv == movie_views(movies@),
            all == disliked_genres(history@.take(i as int), mv),
            char_rows(seen@) == distinct_texts(all),
            string_rows(rejected@) == char_rows(seen@),
            year_range_of(liked_years(history@.take(i as int), mv)) == (if any_year {
                Some((lo, hi))
            } else {
                None
            }),
    {
        let (id, verdict) = history[i];
        let ghost prefix = history@.take(i as int);
        let ghost next = history@.take(i + 1);
        assert(next.drop_last() =~= prefix);
        assert(next.last() == (id, verdict));
        let ghost years_before = liked_years(prefix, mv);
        match movies.get(&id) {
            Some(movie) => {
                assert(mv.contains_key(id) && mv[id] == movie@);
                if verdict == Verdict::Disliked {
                    let gs = &movie.genres;
                    let ghost before = all;
                    for k in 0..gs.len()
                        invariant
                            gs@ == movie.genres@,
                            all == before + string_rows(gs@).take(k as int),
                            char_rows(seen@) == distinct_texts(all),
                            string_rows(rejected@) == char_rows(seen@),
                    {
                        let g = crate::text::chars_of(gs[k].as_str());
                        assert(string_rows(gs@)[k as int] == g@);
                        let ghost prev = all;
                        proof {
                            all = all.push(g@);
                            assert(string_rows(gs@).take(k + 1) =~= string_rows(gs@).take(k as int).push(g@));
                            assert(all.drop_last() =~= prev);
                        }
                        proof {
                            crate::eval::lemma_distinct_texts_contains(prev, g@);
                        }
                        if !crate::eval::contains_text(&seen, &g) {
                            let ghost d0 = char_rows(seen@);
                            let ghost r0 = string_rows(rejected@);
                            let name = gs[k].clone();
                            seen.push(g);
                            rejected.push(name);
                            assert(char_rows(seen@) =~= d0.push(g@));
                            assert(string_rows(rejected@) =~= r0.push(g@));
                        }
                    }
                    assert(string_rows(gs@).take(gs@.len() as int) =~= string_rows(gs@));
                } else {
                    assert(all + Seq::<Seq<char>>::empty() =~= all);
                }
                if verdict == Verdict::Liked {
                    if let Some(y) = movie.release_year {
                        assert(liked_years(next, mv) == years_before.push(y));
                        if !any_year {
                            lo = y;
                            hi = y;
                            any_year = true;
                        } else {
                            if y < lo {
                                lo = y;
                            }
                            if y > hi {
                                hi = y;
                            }
                        }
                        assert(liked_years(next, mv).drop_last() =~= years_before);
                    } else {
                        assert(liked_years(next, mv) == years_before);
                    }
                } else {
                    assert(liked_years(next, mv) == years_before);
                }
            },
            None => {
                assert(!mv.contains_key(id));
                assert(all + Seq::<Seq<char>>::empty() =~= all);
                assert(liked_years(next, mv) == years_before);
            },
        }
        assert(all == disliked_genres(next, mv));
    }
    assert(history@.take(history.len() as int) =~= history@);
    let ghost years = liked_years(history@, mv);
    let range = if any_year {
        Some((lo, hi))
    } else {
        None
    };
    (rejected, range)
}

/// A release year is close to a preferred year range: no more than five years
/// before its start (not below year 0) nor five years after its end.
pub fn near_year_range(range: (u16, u16), year: u16) -> (near: bool)
    requires
        range.1 <= u16::MAX - 5,
    ensures
        near == (year >= (if range.0 >= 5 { range.0 - 5 } else { 0 }) && year <= range.1 + 5),
{
    let start = if range.0 >= 5 {
        range.0 - 5
    } else {
        0
    };
    year >= start && year <= range.1 + 5
}

} // verus!
