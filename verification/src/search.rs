use vstd::prelude::*;

use crate::text::{
    chars_of, contains_chars, eq_ignore_ascii_case, lowercase_of, occurs_in,
    same_ignoring_ascii_case, to_lowercase, words, words_of, char_rows,
};
use crate::types::{Movie, MovieView, string_rows};

verus! {

/// The words of a search query: the whitespace-separated words of its lowercase
/// form; no query has no words.
pub open spec fn query_words_spec(query: Option<Seq<char>>) -> Seq<Seq<char>> {
    match query {
        Some(q) => words(lowercase_of(q)),
        None => Seq::empty(),
    }
}

/// Splits a search query into lowercase words.
pub fn query_words(query: Option<&str>) -> (ws: Vec<Vec<char>>)
    ensures
        char_rows(ws@) == query_words_spec(
            match query {
                Some(q) => Some(q@),
                None => None,
            },
        ),
{
    match query {
        Some(q) => {
            let lower = to_lowercase(q);
            let cs = chars_of(lower.as_str());
            words_of(&cs)
        },
        None => {
            let none: Vec<Vec<char>> = Vec::new();
            assert(char_rows(none@) =~= Seq::<Seq<char>>::empty());
            none
        },
    }
}

/// A movie passes the search filters: it has a genre equal to the requested one
/// ignoring ASCII case, and its release year (0 when unknown) is not before the
/// requested first year.
pub open spec fn passes_filters(m: MovieView, genre: Option<Seq<char>>, year_from: Option<u16>) -> bool {
    &&& (genre matches Some(g) ==> exists|i: int|
        0 <= i < m.genres.len() && same_ignoring_ascii_case(#[trigger] m.genres[i], g))
    &&& (year_from matches Some(y) ==> match m.release_year {
        Some(r) => r >= y,
        None => 0 >= y,
    })
}

/// How many of the query words (counted with repetition) occur in `title`.
pub open spec fn matched_words(title: Seq<char>, ws: Seq<Seq<char>>) -> nat
    decreases ws.len(),
{
    if ws.len() == 0 {
        0
    } else {
        matched_words(title, ws.drop_last()) + if occurs_in(title, ws.last()) {
            1nat
        } else {
            0nat
        }
    }
}

/// The matched-word count never exceeds the number of query words, equals it when
/// every word occurs in the title, is zero when none does, and counts a word once
/// per time it is in the query.
pub proof fn lemma_matched_words_bounds(title: Seq<char>, ws: Seq<Seq<char>>)
    ensures
        matched_words(title, ws) <= ws.len(),
        (forall|i: int| 0 <= i < ws.len() ==> occurs_in(title, #[trigger] ws[i])) ==> matched_words(
            title,
            ws,
        ) == ws.len(),
        (forall|i: int| 0 <= i < ws.len() ==> !occurs_in(title, #[trigger] ws[i])) ==> matched_words(
            title,
            ws,
        ) == 0,
        matched_words(title, ws + ws) == 2 * matched_words(title, ws),
    decreases ws.len(),
{
    lemma_matched_words_append(title, ws, ws);
    if ws.len() > 0 {
        let init = ws.drop_last();
        lemma_matched_words_bounds(title, init);
        assert forall|i: int| 0 <= i < init.len() implies init[i] == ws[i] by {}
        assert(ws[ws.len() - 1] == ws.last());
    }
}

proof fn lemma_matched_words_append(title: Seq<char>, a: Seq<Seq<char>>, b: Seq<Seq<char>>)
    ensures
        matched_words(title, a + b) == matched_words(title, a) + matched_words(title, b),
    decreases b.len(),
{
    if b.len() == 0 {
        assert(a + b =~= a);
    } else {
        lemma_matched_words_append(title, a, b.drop_last());
        assert((a + b).drop_last() =~= a + b.drop_last());
        assert((a + b).last() == b.last());
    }
}

/// The search outcome for one movie: none when a filter rejects it, else the number
/// of query words found in its lowercase title.
pub open spec fn search_outcome(
    m: MovieView,
    ws: Seq<Seq<char>>,
    genre: Option<Seq<char>>,
    year_from: Option<u16>,
) -> Option<nat> {
    if passes_filters(m, genre, year_from) {
        Some(matched_words(lowercase_of(m.title), ws))
    } else {
        None
    }
}

/// A movie is left out of the search exactly when a genre filter is given and none
/// of its genres (whichever position) equals it ignoring ASCII case, or a first year
/// is given and its release year (0 when unknown) is before it.
pub proof fn lemma_search_outcome_none(
    m: MovieView,
    ws: Seq<Seq<char>>,
    genre: Option<Seq<char>>,
    year_from: Option<u16>,
)
    ensures
        search_outcome(m, ws, genre, year_from) is None <==> (
            (genre matches Some(g) && forall|i: int|
                0 <= i < m.genres.len() ==> !same_ignoring_ascii_case(#[trigger] m.genres[i], g))
            || (year_from matches Some(y) && (match m.release_year {
                Some(r) => r,
                None => 0,
            }) < y)
        ),
{
}

/// Any genre of a movie that equals the filter ignoring ASCII case lets the movie
/// through the genre filter: the movie is found, with its matched-word count, when
/// the year filter passes too.
pub proof fn lemma_search_any_genre_passes(
    m: MovieView,
    ws: Seq<Seq<char>>,
    g: Seq<char>,
    year_from: Option<u16>,
    i: int,
)
    requires
        0 <= i < m.genres.len(),
        same_ignoring_ascii_case(m.genres[i], g),
        year_from matches Some(y) ==> (match m.release_year {
            Some(r) => r,
            None => 0,
        }) >= y,
    ensures
        search_outcome(m, ws, Some(g), year_from) == Some(matched_words(lowercase_of(m.title), ws)),
{
}

/// Every text equals itself ignoring ASCII case.
pub proof fn lemma_same_ignoring_ascii_case(a: Seq<char>)
    ensures
        same_ignoring_ascii_case(a, a),
{
}

fn has_genre(genres: &Vec<String>, genre: &Vec<char>) -> (found: bool)
    ensures
        found == exists|i: int|
            0 <= i < genres@.len() && same_ignoring_ascii_case(
                #[trigger] string_rows(genres@)[i],
                genre@,
            ),
{
    for i in 0..genres.len()
        invariant
            forall|j: int|
                0 <= j < i ==> !same_ignoring_ascii_case(
                    #[trigger] string_rows(genres@)[j],
                    genre@,
                ),
    {
        let g = chars_of(genres[i].as_str());
        if eq_ignore_ascii_case(&g, genre) {
            assert(string_rows(genres@)[i as int] == g@);
            return true;
        }
    }
    false
}

/// Applies the search filters to a movie and counts the query words in its title.
pub fn search_matches(
    movie: &Movie,
    ws: &Vec<Vec<char>>,
    genre: Option<&str>,
    year_from: Option<u16>,
) -> (outcome: Option<usize>)
    ensures
        match search_outcome(
            movie@,
            char_rows(ws@),
            match genre {
                Some(g) => Some(g@),
                None => None,
            },
            year_from,
        ) {
            Some(n) => outcome == Some(n as usize),
            None => outcome is None,
        },
        outcome is None <==> (
            (genre matches Some(g) && forall|i: int|
                0 <= i < movie@.genres.len() ==> !same_ignoring_ascii_case(
                    #[trigger] movie@.genres[i],
                    g@,
                ))
            || (year_from matches Some(y) && (match movie.release_year {
                Some(r) => r,
                None => 0,
            }) < y)
        ),
{
    proof {
        lemma_search_outcome_none(
            movie@,
            char_rows(ws@),
            match genre {
                Some(g) => Some(g@),
                None => None,
            },
            year_from,
        );
    }
    let ghost g_spec = match genre {
        Some(g) => Some(g@),
        None => None,
    };
    if let Some(g) = genre {
        let gc = chars_of(g);
        if !has_genre(&movie.genres, &gc) {
            return None;
        }
    }
    assert(g_spec matches Some(gs) ==> exists|i: int|
        0 <= i < movie@.genres.len() && same_ignoring_ascii_case(#[trigger] movie@.genres[i], gs));
    if let Some(y) = year_from {
        let r: u16 = match movie.release_year {
            Some(r) => r,
            None => 0,
        };
        if r < y {
            return None;
        }
    }
    assert(passes_filters(movie@, g_spec, year_from));
    let lower = to_lowercase(movie.title.as_str());
    let title = chars_of(lower.as_str());
    let mut count: usize = 0;
    for i in 0..ws.len()
        invariant
            title@ == lowercase_of(movie.title@),
            count == matched_words(title@, char_rows(ws@).take(i as int)),
            count <= i,
    {
        assert(char_rows(ws@).take(i + 1).drop_last() =~= char_rows(ws@).take(i as int));
        assert(char_rows(ws@)[i as int] == ws@[i as int]@);
        if contains_chars(&title, &ws[i]) {
            count = count + 1;
        }
    }
    assert(char_rows(ws@).take(ws.len() as int) =~= char_rows(ws@));
    Some(count)
}

} // verus!
