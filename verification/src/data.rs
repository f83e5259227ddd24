use vstd::prelude::*;
use vstd::string::StringSliceAdditionalSpecFns;
use std::collections::HashMap;

use crate::number::{parse_unsigned, parse_u32, parse_u64};
use crate::text::{
    char_rows, lines_of, split_chars, split_on, string_of, text_lines, words, words_of,
};
use crate::types::{genre_name, genre_spec, ItemId, Movie, MovieView, UserId, GENRE_COUNT};

verus! {

broadcast use vstd::std_specs::hash::group_hash_axioms;

/// The number of `|`-separated fields a catalogue line needs: id, title, release
/// date, video date, URL and the genre flags.
pub const ITEM_FIELD_COUNT: usize = 24;

/// The names of the genres whose flag field, among the first `k` flags (fields 5
/// on), is exactly `1`.
pub open spec fn flagged_genres(fields: Seq<Seq<char>>, k: int) -> Seq<Seq<char>>
    decreases k,
{
    if k <= 0 {
        Seq::empty()
    } else {
        let earlier = flagged_genres(fields, k - 1);
        if fields[5 + k - 1] == seq!['1'] {
            earlier.push(genre_spec(k - 1))
        } else {
            earlier
        }
    }
}

/// The release year of a catalogue line: a year in the title, else one in the
/// release-date field.
pub open spec fn line_year(title: Seq<char>, date: Seq<char>) -> Option<u16> {
    match crate::text::year_scan(vstd::utf8::encode_utf8(title), 0) {
        Some(y) => Some(y),
        None => crate::text::year_scan(vstd::utf8::encode_utf8(date), 0),
    }
}

/// The movie a catalogue line `id|title|date|video date|url|19 genre flags`
/// describes: none when the line has fewer than 24 fields or its id is not a `u32`.
pub open spec fn item_line_movie(line: Seq<char>) -> Option<MovieView> {
    let fields = split_on(line, '|');
    if fields.len() < ITEM_FIELD_COUNT {
        None
    } else {
        match parse_unsigned(fields[0], u32::MAX as nat) {
            None => None,
            Some(id) => Some(
                MovieView {
                    id: id as u32,
                    title: fields[1],
                    genres: flagged_genres(fields, GENRE_COUNT as int),
                    release_year: line_year(fields[1], fields[2]),
                },
            ),
        }
    }
}

/// The catalogue described by a sequence of lines: each line that describes a movie
/// enters it under the movie's id, a later line replacing an earlier one.
pub open spec fn catalogue(lines: Seq<Seq<char>>) -> Map<ItemId, MovieView>
    decreases lines.len(),
{
    if lines.len() == 0 {
        Map::empty()
    } else {
        let earlier = catalogue(lines.drop_last());
        match item_line_movie(lines.last()) {
            Some(m) => earlier.insert(m.id, m),
            None => earlier,
        }
    }
}

/// The views of the movies of a map.
pub open spec fn movie_views(m: Map<ItemId, Movie>) -> Map<ItemId, MovieView> {
    m.map_values(|mv: Movie| mv@)
}

/// Reads one catalogue line `id|title|date|video date|url|19 genre flags` into a movie.
pub fn parse_item_line(line: &Vec<char>) -> (movie: Option<Movie>)
    ensures
        match item_line_movie(line@) {
            Some(v) => movie matches Some(m) && m@ == v,
            None => movie is None,
        },
{
    let fields = split_chars(line, '|');
    let ghost rows = split_on(line@, '|');
    assert(char_rows(fields@) == rows);
    assert(fields@.len() == rows.len());
    if fields.len() < ITEM_FIELD_COUNT {
        return None;
    }
    assert(fields@[0]@ == rows[0]);
    let id_text = string_of(&fields[0]);
    let id = match parse_u32(id_text.as_str()) {
        Some(id) => id,
        None => return None,
    };
    assert(fields@[1]@ == rows[1]);
    assert(fields@[2]@ == rows[2]);
    let title = string_of(&fields[1]);
    let date = string_of(&fields[2]);
    let year = match crate::text::extract_year(title.as_str()) {
        Some(y) => Some(y),
        None => crate::text::extract_year(date.as_str()),
    };
    let mut genres: Vec<String> = Vec::new();
    for k in 0..GENRE_COUNT
        invariant
            fields@.len() >= ITEM_FIELD_COUNT,
            char_rows(fields@) == rows,
            crate::types::string_rows(genres@) == flagged_genres(rows, k as int),
    {
        let flag = &fields[5 + k];
        assert(flag@ == rows[5 + k]);
        let is_one = flag.len() == 1 && flag[0] == '1';
        assert(is_one == (rows[5 + k] == seq!['1'])) by {
            if rows[5 + k] == seq!['1'] {
                assert(flag@.len() == 1 && flag@[0] == '1');
            }
            if is_one {
                assert(flag@ =~= seq!['1']);
            }
        }
        if is_one {
            let ghost before = crate::types::string_rows(genres@);
            let name = genre_name(k).to_owned();
            genres.push(name);
            assert(crate::types::string_rows(genres@) =~= before.push(genre_spec(k as int)));
        }
    }
    Some(Movie { id, title, genres, release_year: year })
}


/// Reads a catalogue text (the `u.item` file) into the movies it describes, keyed
/// by id; lines that do not describe a movie are skipped, and a later line for an
/// id replaces an earlier one.
pub fn parse_items(text: &str) -> (movies: HashMap<ItemId, Movie>)
    ensures
        movie_views(movies@) == catalogue(text_lines(text@)),
{
    let lines = lines_of(text);
    let ghost rows = text_lines(text@);
    let mut movies: HashMap<ItemId, Movie> = HashMap::new();
    for i in 0..lines.len()
        invariant
            char_rows(lines@) == rows,
            movie_views(movies@) == catalogue(rows.take(i as int)),
    {
        assert(rows.take(i + 1).drop_last() =~= rows.take(i as int));
        assert(lines@[i as int]@ == rows[i as int]);
        let ghost before = movies@;
        match parse_item_line(&lines[i]) {
            Some(m) => {
                let ghost mv = m@;
                movies.insert(m.id, m);
                assert(movie_views(movies@) =~= movie_views(before).insert(mv.id, mv));
            },
            None => {},
        }
    }
    assert(rows.take(lines.len() as int) =~= rows);
    movies
}

/// The fields of one rating line: user, movie, the rating as written, timestamp.
pub struct RatingFields {
    pub user_id: UserId,
    pub movie_id: ItemId,
    pub rating_text: String,
    pub timestamp: u64,
}

/// The mathematical value of [`RatingFields`].
pub struct RatingFieldsView {
    pub user_id: UserId,
    pub movie_id: ItemId,
    pub rating_text: Seq<char>,
    pub timestamp: u64,
}

impl View for RatingFields {
    type V = RatingFieldsView;

    open spec fn view(&self) -> RatingFieldsView {
        RatingFieldsView {
            user_id: self.user_id,
            movie_id: self.movie_id,
            rating_text: self.rating_text@,
            timestamp: self.timestamp,
        }
    }
}

/// The fields of a rating line `user movie rating timestamp` (whitespace-separated,
/// further words ignored): none when it has fewer than four words or the user, movie
/// or timestamp is not an unsigned integer of its type.
pub open spec fn rating_line_fields(line: Seq<char>) -> Option<RatingFieldsView> {
    let w = words(line);
    if w.len() < 4 {
        None
    } else {
        match (
            parse_unsigned(w[0], u32::MAX as nat),
            parse_unsigned(w[1], u32::MAX as nat),
            parse_unsigned(w[3], u64::MAX as nat),
        ) {
            (Some(u), Some(m), Some(t)) => Some(
                RatingFieldsView {
                    user_id: u as u32,
                    movie_id: m as u32,
                    rating_text: w[2],
                    timestamp: t as u64,
                },
            ),
            _ => None,
        }
    }
}

/// The rating lines of a sequence of lines that have rating fields, in order.
pub open spec fn rating_rows(lines: Seq<Seq<char>>) -> Seq<RatingFieldsView>
    decreases lines.len(),
{
    if lines.len() == 0 {
        Seq::empty()
    } else {
        let earlier = rating_rows(lines.drop_last());
        match rating_line_fields(lines.last()) {
            Some(r) => earlier.push(r),
            None => earlier,
        }
    }
}

/// The views of a sequence of rating fields.
pub open spec fn rating_field_views(v: Seq<RatingFields>) -> Seq<RatingFieldsView> {
    v.map_values(|r: RatingFields| r@)
}

/// Reads one rating line `user movie rating timestamp` into its fields; the rating
/// itself is handed back as written.
pub fn parse_rating_line(line: &Vec<char>) -> (fields: Option<RatingFields>)
    ensures
        match rating_line_fields(line@) {
            Some(v) => fields matches Some(f) && f@ == v,
            None => fields is None,
        },
{
    let w = words_of(line);
    let ghost rows = words(line@);
    assert(w@.len() == rows.len());
    if w.len() < 4 {
        return None;
    }
    assert(w@[0]@ == rows[0]);
    assert(w@[1]@ == rows[1]);
    assert(w@[2]@ == rows[2]);
    assert(w@[3]@ == rows[3]);
    let user_text = string_of(&w[0]);
    let movie_text = string_of(&w[1]);
    let time_text = string_of(&w[3]);
    let user = parse_u32(user_text.as_str());
    let movie = parse_u32(movie_text.as_str());
    let time = parse_u64(time_text.as_str());
    match (user, movie, time) {
        (Some(user_id), Some(movie_id), Some(timestamp)) => {
            let rating_text = string_of(&w[2]);
            Some(RatingFields { user_id, movie_id, rating_text, timestamp })
        },
        _ => None,
    }
}

/// Reads a rating text (the `u.data` file) into the fields of its rating lines, in
/// order; lines without rating fields are skipped.
pub fn parse_ratings(text: &str) -> (ratings: Vec<RatingFields>)
    ensures
        rating_field_views(ratings@) == rating_rows(text_lines(text@)),
{
    let lines = lines_of(text);
    let ghost rows = text_lines(text@);
    let mut out: Vec<RatingFields> = Vec::new();
    for i in 0..lines.len()
        invariant
            char_rows(lines@) == rows,
            rating_field_views(out@) == rating_rows(rows.take(i as int)),
    {
        assert(rows.take(i + 1).drop_last() =~= rows.take(i as int));
        assert(lines@[i as int]@ == rows[i as int]);
        let ghost before = rating_field_views(out@);
        match parse_rating_line(&lines[i]) {
            Some(f) => {
                let ghost fv = f@;
                out.push(f);
                assert(rating_field_views(out@) =~= before.push(fv));
            },
            None => {},
        }
    }
    assert(rows.take(lines.len() as int) =~= rows);
    out
}


/// The title shown for a movie id: the catalogue title, or `Movie #<id>` for an id
/// the catalogue does not hold.
pub open spec fn title_for(movies: Map<ItemId, MovieView>, id: ItemId) -> Seq<char> {
    if movies.contains_key(id) {
        movies[id].title
    } else {
        "Movie #"@ + crate::number::decimal_text(id as nat)
    }
}

/// The title shown for a movie id.
pub fn movie_title(movies: &HashMap<ItemId, Movie>, item_id: ItemId) -> (title: String)
    ensures
        title@ == title_for(movie_views(movies@), item_id),
{
    match movies.get(&item_id) {
        Some(m) => m.title.clone(),
        None => {
            let mut t = String::new();
            crate::text::push_str(&mut t, "Movie #");
            crate::number::push_decimal(&mut t, item_id as u64);
            t
        },
    }
}

/// The text of a genre flag.
pub open spec fn flag_text(flag: bool) -> Seq<char> {
    if flag {
        seq!['1']
    } else {
        seq!['0']
    }
}

/// The flag fields `f0|f1|...` of a sequence of genre flags.
pub open spec fn flags_text(flags: Seq<bool>) -> Seq<char>
    decreases flags.len(),
{
    if flags.len() == 0 {
        Seq::empty()
    } else if flags.len() == 1 {
        flag_text(flags[0])
    } else {
        flags_text(flags.drop_last()) + seq!['|'] + flag_text(flags.last())
    }
}

/// The catalogue line for a movie: `id|title|01-Jan-year|unknown|http://example.invalid|flags`.
pub open spec fn item_line_text(id: u32, title: Seq<char>, year: u16, flags: Seq<bool>) -> Seq<
    char,
> {
    crate::number::decimal_text(id as nat) + seq!['|'] + title + "|01-Jan-"@
        + crate::number::decimal_text(year as nat) + "|unknown|http://example.invalid|"@
        + flags_text(flags)
}

/// Writes the catalogue line of a movie (without a line ending).
pub fn format_item_line(id: u32, title: &str, year: u16, flags: &Vec<bool>) -> (line: String)
    ensures
        line@ == item_line_text(id, title@, year, flags@),
{
    let mut line = String::new();
    crate::number::push_decimal(&mut line, id as u64);
    crate::text::push_char(&mut line, '|');
    crate::text::push_str(&mut line, title);
    crate::text::push_str(&mut line, "|01-Jan-");
    crate::number::push_decimal(&mut line, year as u64);
    crate::text::push_str(&mut line, "|unknown|http://example.invalid|");
    let ghost head = line@;
    for i in 0..flags.len()
        invariant
            line@ == head + flags_text(flags@.take(i as int)),
    {
        assert(flags@.take(i + 1).drop_last() =~= flags@.take(i as int));
        if i > 0 {
            crate::text::push_char(&mut line, '|');
        }
        if flags[i] {
            crate::text::push_char(&mut line, '1');
        } else {
            crate::text::push_char(&mut line, '0');
        }
        assert(line@ =~= head + flags_text(flags@.take(i + 1)));
    }
    assert(flags@.take(flags.len() as int) =~= flags@);
    line
}

/// The rating line `user<TAB>movie<TAB>rating<TAB>timestamp`.
pub open spec fn rating_line_text(user: u32, movie: u32, rating: u32, timestamp: u64) -> Seq<
    char,
> {
    crate::number::decimal_text(user as nat) + seq!['\t'] + crate::number::decimal_text(
        movie as nat,
    ) + seq!['\t'] + crate::number::decimal_text(rating as nat) + seq!['\t']
        + crate::number::decimal_text(timestamp as nat)
}

/// Writes the rating line of a whole-star rating (without a line ending).
pub fn format_rating_line(user: u32, movie: u32, rating: u32, timestamp: u64) -> (line: String)
    ensures
        line@ == rating_line_text(user, movie, rating, timestamp),
{
    let mut line = String::new();
    crate::number::push_decimal(&mut line, user as u64);
    crate::text::push_char(&mut line, '\t');
    crate::number::push_decimal(&mut line, movie as u64);
    crate::text::push_char(&mut line, '\t');
    crate::number::push_decimal(&mut line, rating as u64);
    crate::text::push_char(&mut line, '\t');
    crate::number::push_decimal(&mut line, timestamp);
    assert(line@ =~= rating_line_text(user, movie, rating, timestamp));
    line
}

/// The position of a genre name among the genre flags, if it is one of them.
pub fn genre_index(name: &str) -> (idx: Option<usize>)
    ensures
        match idx {
            Some(i) => i < GENRE_COUNT && genre_spec(i as int) == name@ && forall|j: int|
                0 <= j < i ==> genre_spec(j) != name@,
            None => forall|j: int| 0 <= j < GENRE_COUNT ==> genre_spec(j) != name@,
        },
{
    let target = name.to_owned();
    for i in 0..GENRE_COUNT
        invariant
            target@ == name@,
            forall|j: int| 0 <= j < i ==> genre_spec(j) != name@,
    {
        let candidate = genre_name(i).to_owned();
        if candidate == target {
            return Some(i);
        }
    }
    None
}


/// Reading back a rating line that [`format_rating_line`] wrote gives its user,
/// movie and timestamp, and the rating as its decimal text; the line can stand as a
/// line of a file.
pub proof fn lemma_rating_line_round_trip(user: u32, movie: u32, rating: u32, timestamp: u64)
    ensures
        crate::text::plain_line(rating_line_text(user, movie, rating, timestamp)),
        rating_line_fields(rating_line_text(user, movie, rating, timestamp)) == Some(
            RatingFieldsView {
                user_id: user,
                movie_id: movie,
                rating_text: crate::number::decimal_text(rating as nat),
                timestamp,
            },
        ),
{
    let du = crate::number::decimal_text(user as nat);
    let dm = crate::number::decimal_text(movie as nat);
    let dr = crate::number::decimal_text(rating as nat);
    let dt = crate::number::decimal_text(timestamp as nat);
    crate::number::lemma_decimal_text_digits(user as nat);
    crate::number::lemma_decimal_text_digits(movie as nat);
    crate::number::lemma_decimal_text_digits(rating as nat);
    crate::number::lemma_decimal_text_digits(timestamp as nat);
    let parts = seq![du, dm, dr, dt];
    assert forall|i: int| 0 <= i < parts.len() implies crate::text::free_of_white(
        #[trigger] parts[i],
    ) && parts[i].len() > 0 by {
        let p = parts[i];
        assert(crate::number::all_digits(p));
        assert forall|k: int| 0 <= k < p.len() implies !crate::text::is_white_space(
            #[trigger] p[k],
        ) by {
            assert(crate::number::is_digit_char(p[k]));
        }
    }
    assert(crate::text::is_white_space('\t'));
    crate::text::lemma_words_join(parts, '\t');
    reveal_with_fuel(crate::text::join_with, 4);
    assert(parts.drop_last().drop_last().drop_last() =~= seq![du]);
    assert(parts.drop_last().drop_last() =~= seq![du, dm]);
    assert(parts.drop_last() =~= seq![du, dm, dr]);
    assert(crate::text::join_with(parts, '\t') =~= rating_line_text(
        user,
        movie,
        rating,
        timestamp,
    ));
    crate::number::lemma_parse_decimal_text(user as nat, u32::MAX as nat);
    crate::number::lemma_parse_decimal_text(movie as nat, u32::MAX as nat);
    crate::number::lemma_parse_decimal_text(timestamp as nat, u64::MAX as nat);
    assert(parts.last() == dt);
    assert(forall|i: int| 0 <= i < parts.len() ==> crate::text::free_of(#[trigger] parts[i], '\n')) by {
        assert forall|i: int| 0 <= i < parts.len() implies crate::text::free_of(#[trigger] parts[i], '\n') by {
            let p = parts[i];
            assert forall|k: int| 0 <= k < p.len() implies p[k] != '\n' by {
                assert(!crate::text::is_white_space(p[k]));
            }
        }
    }
    crate::text::lemma_join_free(parts, '\t', '\n');
    crate::text::lemma_join_last(parts, '\t');
    assert(crate::number::is_digit_char(dt[dt.len() - 1]));
}

/// A written rating: user, movie, whole-star rating, timestamp.
pub type RatingEntry = (u32, u32, u32, u64);

/// The rating lines of a sequence of written ratings.
pub open spec fn rating_lines(rs: Seq<RatingEntry>) -> Seq<Seq<char>> {
    rs.map_values(|r: RatingEntry| rating_line_text(r.0, r.1, r.2, r.3))
}

/// The fields a written rating is read back as.
pub open spec fn entry_fields(r: RatingEntry) -> RatingFieldsView {
    RatingFieldsView {
        user_id: r.0,
        movie_id: r.1,
        rating_text: crate::number::decimal_text(r.2 as nat),
        timestamp: r.3,
    }
}

proof fn lemma_rating_rows_of_lines(rs: Seq<RatingEntry>)
    ensures
        rating_rows(rating_lines(rs)) == rs.map_values(|r: RatingEntry| entry_fields(r)),
    decreases rs.len(),
{
    if rs.len() > 0 {
        lemma_rating_rows_of_lines(rs.drop_last());
        assert(rating_lines(rs).drop_last() =~= rating_lines(rs.drop_last()));
        let r = rs.last();
        assert(rs[rs.len() - 1] == r);
        lemma_rating_line_round_trip(r.0, r.1, r.2, r.3);
        assert(rs.map_values(|r: RatingEntry| entry_fields(r)) =~= rs.drop_last().map_values(
            |r: RatingEntry| entry_fields(r),
        ).push(entry_fields(r)));
    }
}

/// Reading a rating file written line by line from whole-star ratings gives back
/// every rating, in order, with its rating as decimal text.
pub proof fn lemma_rating_file_round_trip(rs: Seq<RatingEntry>)
    ensures
        rating_rows(text_lines(crate::text::lines_text(rating_lines(rs)))) == rs.map_values(
            |r: RatingEntry| entry_fields(r),
        ),
{
    let lines = rating_lines(rs);
    assert forall|i: int| 0 <= i < lines.len() implies crate::text::plain_line(#[trigger] lines[i]) by {
        let r = rs[i];
        lemma_rating_line_round_trip(r.0, r.1, r.2, r.3);
    }
    crate::text::lemma_text_lines_of_lines_text(lines);
    lemma_rating_rows_of_lines(rs);
}


/// The genre names of the set flags among the first `k` of `flags`, in flag order.
pub open spec fn genres_of_flags(flags: Seq<bool>, k: int) -> Seq<Seq<char>>
    decreases k,
{
    if k <= 0 {
        Seq::empty()
    } else if flags[k - 1] {
        genres_of_flags(flags, k - 1).push(genre_spec(k - 1))
    } else {
        genres_of_flags(flags, k - 1)
    }
}

proof fn lemma_flags_text_join(flags: Seq<bool>)
    ensures
        flags_text(flags) == crate::text::join_with(
            flags.map_values(|f: bool| flag_text(f)),
            '|',
        ),
    decreases flags.len(),
{
    let ft = flags.map_values(|f: bool| flag_text(f));
    if flags.len() > 1 {
        lemma_flags_text_join(flags.drop_last());
        assert(ft.drop_last() =~= flags.drop_last().map_values(|f: bool| flag_text(f)));
    }
}

proof fn lemma_flagged_genres(fields: Seq<Seq<char>>, flags: Seq<bool>, k: int)
    requires
        0 <= k <= flags.len(),
        fields.len() >= 5 + flags.len(),
        forall|i: int| 0 <= i < flags.len() ==> fields[5 + i] == flag_text(#[trigger] flags[i]),
    ensures
        flagged_genres(fields, k) == genres_of_flags(flags, k),
    decreases k,
{
    if k > 0 {
        lemma_flagged_genres(fields, flags, k - 1);
        assert(fields[5 + k - 1] == flag_text(flags[k - 1]));
        if !flags[k - 1] {
            assert(seq!['0'] != seq!['1']) by {
                assert(seq!['0'][0] != seq!['1'][0]);
            }
        }
    }
}

/// The fields of the catalogue line of a movie: id, title, release date, video
/// date, URL and the genre flags.
pub open spec fn item_fields(id: u32, title: Seq<char>, year: u16, flags: Seq<bool>) -> Seq<Seq<char>> {
    seq![
        crate::number::decimal_text(id as nat),
        title,
        "01-Jan-"@ + crate::number::decimal_text(year as nat),
        "unknown"@,
        "http://example.invalid"@,
    ] + flags.map_values(|f: bool| flag_text(f))
}

proof fn lemma_item_line_join(id: u32, title: Seq<char>, year: u16, flags: Seq<bool>)
    requires
        flags.len() == GENRE_COUNT,
    ensures
        item_line_text(id, title, year, flags) == crate::text::join_with(
            item_fields(id, title, year, flags),
            '|',
        ),
{
    reveal_strlit("01-Jan-");
    reveal_strlit("|01-Jan-");
    reveal_strlit("unknown");
    reveal_strlit("http://example.invalid");
    reveal_strlit("|unknown|http://example.invalid|");
    let did = crate::number::decimal_text(id as nat);
    let dy = crate::number::decimal_text(year as nat);
    let date = "01-Jan-"@ + dy;
    let head = seq![did, title, date, "unknown"@, "http://example.invalid"@];
    let ft = flags.map_values(|f: bool| flag_text(f));
    assert(item_fields(id, title, year, flags) == head + ft);
    lemma_flags_text_join(flags);
    crate::text::lemma_join_append(head, ft, '|');
    reveal_with_fuel(crate::text::join_with, 5);
    assert(head.drop_last().drop_last().drop_last().drop_last() =~= seq![did]);
    assert(head.drop_last().drop_last().drop_last() =~= seq![did, title]);
    assert(head.drop_last().drop_last() =~= seq![did, title, date]);
    assert(head.drop_last() =~= seq![did, title, date, "unknown"@]);
    assert(crate::text::join_with(head + ft, '|') =~= item_line_text(id, title, year, flags));
}

proof fn lemma_item_fields_free(id: u32, title: Seq<char>, year: u16, flags: Seq<bool>, c: char)
    requires
        flags.len() == GENRE_COUNT,
        crate::text::free_of(title, c),
        c == '|' || c == '\n',
    ensures
        forall|i: int| 0 <= i < item_fields(id, title, year, flags).len() ==> crate::text::free_of(
            #[trigger] item_fields(id, title, year, flags)[i],
            c,
        ),
{
    reveal_strlit("01-Jan-");
    reveal_strlit("unknown");
    reveal_strlit("http://example.invalid");
    let did = crate::number::decimal_text(id as nat);
    let dy = crate::number::decimal_text(year as nat);
    crate::number::lemma_decimal_text_digits(id as nat);
    crate::number::lemma_decimal_text_digits(year as nat);
    let date = "01-Jan-"@ + dy;
    let fields = item_fields(id, title, year, flags);
    assert forall|i: int| 0 <= i < fields.len() implies crate::text::free_of(#[trigger] fields[i], c) by {
        if i == 0 {
            assert(fields[0] == did);
            assert forall|k: int| 0 <= k < did.len() implies did[k] != c by {
                assert(crate::number::is_digit_char(did[k]));
            }
        } else if i == 1 {
            assert(fields[1] == title);
        } else if i == 2 {
            assert(fields[2] == date);
            assert forall|k: int| 0 <= k < date.len() implies date[k] != c by {
                if k >= 7 {
                    assert(crate::number::is_digit_char(dy[k - 7]));
                }
            }
        } else if i == 3 {
            assert(fields[3] == "unknown"@);
        } else if i == 4 {
            assert(fields[4] == "http://example.invalid"@);
        } else {
            assert(fields[i] == flag_text(flags[i - 5]));
        }
    }
}

/// Reading back a catalogue line that [`format_item_line`] wrote, for a title without
/// `|` and 19 genre flags, gives the movie: its id, its title, the genres whose flag
/// is set, and the year found in the title or else in the written release date.
pub proof fn lemma_item_line_round_trip(id: u32, title: Seq<char>, year: u16, flags: Seq<bool>)
    requires
        flags.len() == GENRE_COUNT,
        crate::text::free_of(title, '|'),
    ensures
        item_line_movie(item_line_text(id, title, year, flags)) == Some(
            MovieView {
                id,
                title,
                genres: genres_of_flags(flags, GENRE_COUNT as int),
                release_year: line_year(title, "01-Jan-"@ + crate::number::decimal_text(year as nat)),
            },
        ),
{
    let fields = item_fields(id, title, year, flags);
    lemma_item_line_join(id, title, year, flags);
    lemma_item_fields_free(id, title, year, flags, '|');
    crate::text::lemma_split_on_join(fields, '|');
    assert(fields.len() == 24);
    crate::number::lemma_parse_decimal_text(id as nat, u32::MAX as nat);
    assert forall|i: int| 0 <= i < flags.len() implies fields[5 + i] == flag_text(#[trigger] flags[i]) by {}
    lemma_flagged_genres(fields, flags, GENRE_COUNT as int);
}

/// A catalogue line of a title without line feeds can stand as a line.
proof fn lemma_item_line_plain(id: u32, title: Seq<char>, year: u16, flags: Seq<bool>)
    requires
        flags.len() == GENRE_COUNT,
        crate::text::free_of(title, '\n'),
    ensures
        crate::text::plain_line(item_line_text(id, title, year, flags)),
{
    let fields = item_fields(id, title, year, flags);
    lemma_item_line_join(id, title, year, flags);
    lemma_item_fields_free(id, title, year, flags, '\n');
    crate::text::lemma_join_free(fields, '|', '\n');
    assert(fields.last() == flag_text(flags[GENRE_COUNT - 1]));
    crate::text::lemma_join_last(fields, '|');
}

/// A catalogue entry: id, title, release year and genre flags.
pub type ItemEntry = (u32, Seq<char>, u16, Seq<bool>);

/// The movie a catalogue entry describes once written and read back.
pub open spec fn entry_movie(e: ItemEntry) -> MovieView {
    MovieView {
        id: e.0,
        title: e.1,
        genres: genres_of_flags(e.3, GENRE_COUNT as int),
        release_year: line_year(e.1, "01-Jan-"@ + crate::number::decimal_text(e.2 as nat)),
    }
}

/// The catalogue of a sequence of entries: each under its id, a later entry
/// replacing an earlier one.
pub open spec fn entries_catalogue(es: Seq<ItemEntry>) -> Map<ItemId, MovieView>
    decreases es.len(),
{
    if es.len() == 0 {
        Map::empty()
    } else {
        entries_catalogue(es.drop_last()).insert(es.last().0, entry_movie(es.last()))
    }
}

/// The catalogue lines of a sequence of entries.
pub open spec fn item_lines(es: Seq<ItemEntry>) -> Seq<Seq<char>> {
    es.map_values(|e: ItemEntry| item_line_text(e.0, e.1, e.2, e.3))
}

/// The entries can be written as catalogue lines and read back.
pub open spec fn writable_entries(es: Seq<ItemEntry>) -> bool {
    forall|i: int|
        0 <= i < es.len() ==> {
            &&& crate::text::free_of((#[trigger] es[i]).1, '|')
            &&& crate::text::free_of(es[i].1, '\n')
            &&& es[i].3.len() == GENRE_COUNT
        }
}

proof fn lemma_catalogue_of_item_lines(es: Seq<ItemEntry>)
    requires
        writable_entries(es),
    ensures
        catalogue(item_lines(es)) == entries_catalogue(es),
    decreases es.len(),
{
    if es.len() > 0 {
        let init = es.drop_last();
        assert(writable_entries(init)) by {
            assert forall|i: int| 0 <= i < init.len() implies init[i] == es[i] by {}
        }
        lemma_catalogue_of_item_lines(init);
        assert(item_lines(es).drop_last() =~= item_lines(init));
        let e = es.last();
        assert(es[es.len() - 1] == e);
        lemma_item_line_round_trip(e.0, e.1, e.2, e.3);
    }
}

/// Reading a catalogue file written line by line from entries whose titles hold no
/// `|` and no line feed, and that have 19 genre flags each, gives back under each
/// id the movie of the last entry with that id.
pub proof fn lemma_item_file_round_trip(es: Seq<ItemEntry>)
    requires
        writable_entries(es),
    ensures
        catalogue(text_lines(crate::text::lines_text(item_lines(es)))) == entries_catalogue(es),
{
    let lines = item_lines(es);
    assert forall|i: int| 0 <= i < lines.len() implies crate::text::plain_line(#[trigger] lines[i]) by {
        let e = es[i];
        lemma_item_line_plain(e.0, e.1, e.2, e.3);
    }
    crate::text::lemma_text_lines_of_lines_text(lines);
    lemma_catalogue_of_item_lines(es);
}

} // verus!
