use recommand_sys::data::{
    format_item_line, format_rating_line, genre_index, movie_title, parse_items, parse_ratings,
};
use recommand_sys::text::{lines_of, words_of};
use recommand_sys::types::{genre_names, GENRE_COUNT};

fn sample_items() -> Vec<(u32, &'static str, u16, Vec<&'static str>)> {
    vec![
        (1, "Toy Story (1995)", 1995, vec!["Animation", "Children", "Comedy"]),
        (2, "GoldenEye (1995)", 1995, vec!["Action", "Adventure", "Thriller"]),
        (3, "Four Rooms (1995)", 1995, vec!["Comedy"]),
        (4, "Get Shorty (1995)", 1995, vec!["Comedy", "Crime"]),
        (5, "Copycat (1995)", 1995, vec!["Crime", "Drama", "Thriller"]),
        (6, "Twelve Monkeys (1995)", 1995, vec!["Sci-Fi", "Thriller"]),
        (7, "Babe (1995)", 1995, vec!["Children", "Comedy", "Drama"]),
        (8, "Richard III (1995)", 1995, vec!["Drama", "War"]),
        (9, "Star Wars (1977)", 1977, vec!["Action", "Adventure", "Sci-Fi", "War"]),
        (10, "Pulp Fiction (1994)", 1994, vec!["Crime", "Drama"]),
        (11, "The Matrix (1999)", 1999, vec!["Action", "Sci-Fi", "Thriller"]),
        (12, "Sense and Sensibility (1995)", 1995, vec!["Drama", "Romance"]),
    ]
}

fn sample_ratings() -> Vec<(u32, u32, u32)> {
    vec![
        (196, 1, 5), (196, 6, 4), (196, 9, 5), (196, 11, 5), (196, 12, 2),
        (1, 1, 5), (1, 3, 4), (1, 4, 4), (1, 7, 5), (1, 10, 3),
        (2, 2, 4), (2, 5, 5), (2, 6, 4), (2, 9, 5), (2, 11, 5),
        (3, 8, 5), (3, 10, 5), (3, 12, 5), (3, 5, 3), (3, 4, 2),
        (4, 1, 4), (4, 7, 4), (4, 12, 5), (4, 3, 3), (4, 8, 4),
        (5, 2, 5), (5, 9, 5), (5, 11, 4), (5, 6, 5), (5, 5, 2),
        (6, 10, 5), (6, 4, 4), (6, 5, 4), (6, 12, 3), (6, 8, 4),
    ]
}

fn item_text() -> String {
    let mut text = String::new();
    for (id, title, year, genres) in sample_items() {
        let mut flags = vec![false; GENRE_COUNT];
        for genre in genres {
            if let Some(idx) = genre_index(genre) {
                flags[idx] = true;
            }
        }
        text.push_str(&format_item_line(id, title, year, &flags));
        text.push('\n');
    }
    text
}

fn data_text() -> String {
    let mut text = String::new();
    for (idx, (user, item, rating)) in sample_ratings().into_iter().enumerate() {
        text.push_str(&format_rating_line(user, item, rating, 874_965_000 + idx as u64));
        text.push('\n');
    }
    text
}

#[test]
fn loads_movielens_compatible_data() {
    let movies = parse_items(&item_text());
    let ratings = parse_ratings(&data_text());
    assert!(movies.len() >= 10);
    assert!(ratings.len() >= 30);
    assert!(movies.get(&9).unwrap().genres.contains(&"Sci-Fi".to_string()));
}

#[test]
fn item_line_has_catalogue_layout() {
    let mut flags = vec![false; GENRE_COUNT];
    flags[1] = true;
    flags[15] = true;
    let line = format_item_line(9, "Star Wars (1977)", 1977, &flags);
    assert_eq!(
        line,
        "9|Star Wars (1977)|01-Jan-1977|unknown|http://example.invalid|0|1|0|0|0|0|0|0|0|0|0|0|0|0|0|1|0|0|0"
    );
    assert_eq!(format_rating_line(196, 1, 5, 874965000), "196\t1\t5\t874965000");
}

#[test]
fn parsed_catalogue_round_trips_sample_movies() {
    let movies = parse_items(&item_text());
    assert_eq!(movies.len(), 12);
    let star_wars = movies.get(&9).unwrap();
    assert_eq!(star_wars.title, "Star Wars (1977)");
    assert_eq!(star_wars.release_year, Some(1977));
    assert_eq!(star_wars.genres, vec!["Action", "Adventure", "Sci-Fi", "War"]);
    let toy = movies.get(&1).unwrap();
    assert_eq!(toy.genres, vec!["Animation", "Children", "Comedy"]);
}

#[test]
fn parsed_ratings_keep_order_and_text() {
    let ratings = parse_ratings(&data_text());
    assert_eq!(ratings.len(), 35);
    assert_eq!(ratings[0].user_id, 196);
    assert_eq!(ratings[0].movie_id, 1);
    assert_eq!(ratings[0].rating_text, "5");
    assert_eq!(ratings[0].timestamp, 874_965_000);
    assert_eq!(ratings[34].user_id, 6);
    assert_eq!(ratings[34].timestamp, 874_965_034);
}

#[test]
fn item_parsing_skips_short_and_bad_lines() {
    let mut flags = vec![false; GENRE_COUNT];
    flags[8] = true;
    let good = format_item_line(7, "Babe (1995)", 1995, &flags);
    let text = format!("1|too|few\nx{}\n\n{}\r\n", good, good);
    let movies = parse_items(&text);
    assert_eq!(movies.len(), 1);
    assert_eq!(movies.get(&7).unwrap().genres, vec!["Drama"]);
}

#[test]
fn later_catalogue_line_replaces_earlier() {
    let flags = vec![false; GENRE_COUNT];
    let text = format!(
        "{}\n{}\n",
        format_item_line(3, "First", 1990, &flags),
        format_item_line(3, "Second", 1991, &flags)
    );
    let movies = parse_items(&text);
    assert_eq!(movies.get(&3).unwrap().title, "Second");
    assert_eq!(movies.get(&3).unwrap().release_year, Some(1991));
}

#[test]
fn rating_parsing_needs_four_numeric_fields() {
    let ratings = parse_ratings("1 2 4.5 100\n1 2 3\nx 2 3 4\n  7\t8 2   9 extra\n");
    assert_eq!(ratings.len(), 2);
    assert_eq!(ratings[0].rating_text, "4.5");
    assert_eq!(ratings[1].user_id, 7);
    assert_eq!(ratings[1].timestamp, 9);
}

#[test]
fn lines_and_words_split_like_std() {
    let lines = lines_of("a\r\nb\n\nc\r");
    let as_strings: Vec<String> = lines.iter().map(|l| l.iter().collect()).collect();
    assert_eq!(as_strings, vec!["a", "b", "", "c\r"]);
    let words = words_of(&" x  yz\u{3000}w ".chars().collect());
    let as_strings: Vec<String> = words.iter().map(|l| l.iter().collect()).collect();
    assert_eq!(as_strings, vec!["x", "yz", "w"]);
}

#[test]
fn genre_table_and_lookup() {
    let names = genre_names();
    assert_eq!(names.len(), 19);
    assert_eq!(names[0], "Unknown");
    assert_eq!(names[15], "Sci-Fi");
    assert_eq!(genre_index("Western"), Some(18));
    assert_eq!(genre_index("western"), None);
}

#[test]
fn movie_title_falls_back_to_id() {
    let movies = parse_items(&item_text());
    assert_eq!(movie_title(&movies, 10), "Pulp Fiction (1994)");
    assert_eq!(movie_title(&movies, 42), "Movie #42");
}
