use vstd::prelude::*;

verus! {

/// Identifier of a user in the rating data.
pub type UserId = u32;

/// Identifier of a movie in the catalogue.
pub type ItemId = u32;

/// A movie of the catalogue: its id, title, genre names and release year.
#[derive(Clone, Debug)]
pub struct Movie {
    pub id: ItemId,
    pub title: String,
    pub genres: Vec<String>,
    pub release_year: Option<u16>,
}

/// The mathematical value of a [`Movie`].
pub struct MovieView {
    pub id: ItemId,
    pub title: Seq<char>,
    pub genres: Seq<Seq<char>>,
    pub release_year: Option<u16>,
}

/// The character sequences held by a vector of strings.
pub open spec fn string_rows(v: Seq<String>) -> Seq<Seq<char>> {
    v.map_values(|s: String| s@)
}

impl View for Movie {
    type V = MovieView;

    open spec fn view(&self) -> MovieView {
        MovieView {
            id: self.id,
            title: self.title@,
            genres: string_rows(self.genres@),
            release_year: self.release_year,
        }
    }
}

/// The number of genre flags of a catalogue line.
pub const GENRE_COUNT: usize = 19;

/// The name of genre number `i` of the catalogue's genre flags.
pub open spec fn genre_spec(i: int) -> Seq<char> {
    if i == 0 {
        "Unknown"@
    } else if i == 1 {
        "Action"@
    } else if i == 2 {
        "Adventure"@
    } else if i == 3 {
        "Animation"@
    } else if i == 4 {
        "Children"@
    } else if i == 5 {
        "Comedy"@
    } else if i == 6 {
        "Crime"@
    } else if i == 7 {
        "Documentary"@
    } else if i == 8 {
        "Drama"@
    } else if i == 9 {
        "Fantasy"@
    } else if i == 10 {
        "Film-Noir"@
    } else if i == 11 {
        "Horror"@
    } else if i == 12 {
        "Musical"@
    } else if i == 13 {
        "Mystery"@
    } else if i == 14 {
        "Romance"@
    } else if i == 15 {
        "Sci-Fi"@
    } else if i == 16 {
        "Thriller"@
    } else if i == 17 {
        "War"@
    } else {
        "Western"@
    }
}

/// The name of genre number `i` (0 to 18) of the catalogue's genre flags.
pub fn genre_name(i: usize) -> (g: &'static str)
    requires
        i < GENRE_COUNT,
    ensures
        g@ == genre_spec(i as int),
{
    if i == 0 {
        "Unknown"
    } else if i == 1 {
        "Action"
    } else if i == 2 {
        "Adventure"
    } else if i == 3 {
        "Animation"
    } else if i == 4 {
        "Children"
    } else if i == 5 {
        "Comedy"
    } else if i == 6 {
        "Crime"
    } else if i == 7 {
        "Documentary"
    } else if i == 8 {
        "Drama"
    } else if i == 9 {
        "Fantasy"
    } else if i == 10 {
        "Film-Noir"
    } else if i == 11 {
        "Horror"
    } else if i == 12 {
        "Musical"
    } else if i == 13 {
        "Mystery"
    } else if i == 14 {
        "Romance"
    } else if i == 15 {
        "Sci-Fi"
    } else if i == 16 {
        "Thriller"
    } else if i == 17 {
        "War"
    } else {
        "Western"
    }
}

/// The genre flags follow the MovieLens genre list, in this order: Unknown, Action,
/// Adventure, Animation, Children, Comedy, Crime, Documentary, Drama, Fantasy,
/// Film-Noir, Horror, Musical, Mystery, Romance, Sci-Fi, Thriller, War, Western.
pub proof fn lemma_genre_table()
    ensures
        Seq::new(GENRE_COUNT as nat, |i: int| genre_spec(i)) == seq![
            "Unknown"@, "Action"@, "Adventure"@, "Animation"@, "Children"@, "Comedy"@, "Crime"@,
            "Documentary"@, "Drama"@, "Fantasy"@, "Film-Noir"@, "Horror"@, "Musical"@, "Mystery"@,
            "Romance"@, "Sci-Fi"@, "Thriller"@, "War"@, "Western"@,
        ],
{
    assert(Seq::new(GENRE_COUNT as nat, |i: int| genre_spec(i)) =~= seq![
            "Unknown"@, "Action"@, "Adventure"@, "Animation"@, "Children"@, "Comedy"@, "Crime"@,
            "Documentary"@, "Drama"@, "Fantasy"@, "Film-Noir"@, "Horror"@, "Musical"@, "Mystery"@,
            "Romance"@, "Sci-Fi"@, "Thriller"@, "War"@, "Western"@,
        ]);
}

/// All genre names, in the order of the catalogue's genre flags.
pub fn genre_names() -> (names: Vec<&'static str>)
    ensures
        names@.len() == GENRE_COUNT,
        forall|i: int| 0 <= i < GENRE_COUNT ==> (#[trigger] names@[i])@ == genre_spec(i),
        names@.map_values(|n: &'static str| n@) == seq![
            "Unknown"@, "Action"@, "Adventure"@, "Animation"@, "Children"@, "Comedy"@, "Crime"@,
            "Documentary"@, "Drama"@, "Fantasy"@, "Film-Noir"@, "Horror"@, "Musical"@, "Mystery"@,
            "Romance"@, "Sci-Fi"@, "Thriller"@, "War"@, "Western"@,
        ],
{
    let mut names: Vec<&'static str> = Vec::new();
    for i in 0..GENRE_COUNT
        invariant
            names@.len() == i,
            forall|j: int| 0 <= j < i ==> (#[trigger] names@[j])@ == genre_spec(j),
    {
        names.push(genre_name(i));
    }
    proof {
        lemma_genre_table();
        assert(names@.map_values(|n: &'static str| n@) =~= Seq::new(GENRE_COUNT as nat, |i: int| genre_spec(i)));
    }
    names
}

} // verus!
