use vstd::prelude::*;

use crate::number::{all_digits, decimal_text, is_digit_char};
use crate::text::{char_rows, chars_of, lowercase_of, to_lowercase};
use crate::types::{Movie, MovieView};

verus! {

/// The kinds of content features of a movie.
#[derive(Clone, Copy, Debug, PartialEq, Eq, Structural)]
pub enum FeatureKind {
    /// A genre of the movie (`genre:<genre>`).
    Genre,
    /// A word of the title (`title:<word>`).
    Title,
    /// The release decade (`decade:<year>`).
    Decade,
}

/// A content feature of a movie: its key, its kind, and how many times the movie
/// has it (a genre listed twice, a title word used twice).
pub struct Feature {
    pub key: String,
    pub kind: FeatureKind,
    pub count: usize,
}

/// `c` is an ASCII letter or digit.
pub open spec fn is_ascii_alnum(c: char) -> bool {
    ('0' <= c && c <= '9') || ('a' <= c && c <= 'z') || ('A' <= c && c <= 'Z')
}

/// The pieces of `s` between characters that are not ASCII letters or digits,
/// empty pieces included.
pub open spec fn split_non_alnum(s: Seq<char>) -> Seq<Seq<char>>
    decreases s.len(),
{
    if s.len() == 0 {
        seq![Seq::<char>::empty()]
    } else {
        let parts = split_non_alnum(s.drop_last());
        if !is_ascii_alnum(s.last()) {
            parts.push(Seq::<char>::empty())
        } else {
            parts.update(parts.len() - 1, parts.last().push(s.last()))
        }
    }
}

/// A title piece counts as a word: longer than two characters and not all digits.
pub open spec fn title_word(t: Seq<char>) -> bool {
    t.len() > 2 && !all_digits(t)
}

/// The title words among the pieces `p`, in order.
pub open spec fn title_words_of(p: Seq<Seq<char>>) -> Seq<Seq<char>>
    decreases p.len(),
{
    if p.len() == 0 {
        Seq::empty()
    } else if title_word(p.last()) {
        title_words_of(p.drop_last()).push(p.last())
    } else {
        title_words_of(p.drop_last())
    }
}

/// The words of a (lowercase) title.
pub open spec fn title_words(s: Seq<char>) -> Seq<Seq<char>> {
    title_words_of(split_non_alnum(s))
}

/// One feature occurrence: key and kind.
pub type FeatureEntry = (Seq<char>, FeatureKind);

/// The feature occurrences of a movie, in order: one per genre, one per title word
/// of the lowercase title, one for the release decade.
pub open spec fn feature_entries(m: MovieView) -> Seq<FeatureEntry> {
    m.genres.map_values(|g: Seq<char>| ("genre:"@ + lowercase_of(g), FeatureKind::Genre))
        + title_words(lowercase_of(m.title)).map_values(
        |t: Seq<char>| ("title:"@ + t, FeatureKind::Title),
    ) + match m.release_year {
        Some(y) => seq![("decade:"@ + decimal_text(((y / 10) * 10) as nat), FeatureKind::Decade)],
        None => Seq::empty(),
    }
}

/// The first position of a feature with key `k`, or -1.
pub open spec fn key_position(acc: Seq<(Seq<char>, FeatureKind, nat)>, k: Seq<char>) -> int
    decreases acc.len(),
{
    if acc.len() == 0 {
        -1
    } else if key_position(acc.drop_last(), k) >= 0 {
        key_position(acc.drop_last(), k)
    } else if acc.last().0 == k {
        acc.len() - 1
    } else {
        -1
    }
}

/// The features counted from occurrences: one per distinct key, in order of first
/// occurrence, with the kind of that first occurrence and the number of occurrences.
pub open spec fn tally(entries: Seq<FeatureEntry>) -> Seq<(Seq<char>, FeatureKind, nat)>
    decreases entries.len(),
{
    if entries.len() == 0 {
        Seq::empty()
    } else {
        let acc = tally(entries.drop_last());
        let (k, kind) = entries.last();
        let p = key_position(acc, k);
        if p >= 0 {
            acc.update(p, (acc[p].0, acc[p].1, acc[p].2 + 1))
        } else {
            acc.push((k, kind, 1nat))
        }
    }
}

/// The mathematical value of a list of features.
pub open spec fn feature_rows(v: Seq<Feature>) -> Seq<(Seq<char>, FeatureKind, nat)> {
    v.map_values(|f: Feature| (f.key@, f.kind, f.count as nat))
}

/// The content features of a movie.
pub open spec fn movie_feature_spec(m: MovieView) -> Seq<(Seq<char>, FeatureKind, nat)> {
    tally(feature_entries(m))
}

proof fn lemma_key_position(acc: Seq<(Seq<char>, FeatureKind, nat)>, k: Seq<char>)
    ensures
        -1 <= key_position(acc, k) < acc.len(),
        key_position(acc, k) >= 0 ==> acc[key_position(acc, k)].0 == k,
        key_position(acc, k) < 0 ==> forall|j: int| 0 <= j < acc.len() ==> #[trigger] acc[j].0 != k,
    decreases acc.len(),
{
    if acc.len() > 0 {
        lemma_key_position(acc.drop_last(), k);
        assert forall|j: int| 0 <= j < acc.len() - 1 implies #[trigger] acc[j] == acc.drop_last()[j] by {}
    }
}

proof fn lemma_tally_bounds(entries: Seq<FeatureEntry>)
    ensures
        tally(entries).len() <= entries.len(),
        forall|j: int| 0 <= j < tally(entries).len() ==> (#[trigger] tally(entries)[j]).2 <= entries.len(),
    decreases entries.len(),
{
    if entries.len() > 0 {
        lemma_tally_bounds(entries.drop_last());
        let acc = tally(entries.drop_last());
        lemma_key_position(acc, entries.last().0);
    }
}

fn split_title(cs: &Vec<char>) -> (parts: Vec<Vec<char>>)
    ensures
        char_rows(parts@) == split_non_alnum(cs@),
{
    let mut parts: Vec<Vec<char>> = Vec::new();
    let mut cur: Vec<char> = Vec::new();
    for i in 0..cs.len()
        invariant
            char_rows(parts@).push(cur@) == split_non_alnum(cs@.take(i as int)),
    {
        let c = cs[i];
        assert(cs@.take(i + 1).drop_last() =~= cs@.take(i as int));
        let alnum = ('0' <= c && c <= '9') || ('a' <= c && c <= 'z') || ('A' <= c && c <= 'Z');
        if !alnum {
            let done = cur;
            let ghost before = char_rows(parts@);
            parts.push(done);
            cur = Vec::new();
            assert(char_rows(parts@) =~= before.push(done@));
            assert(char_rows(parts@).push(cur@) =~= split_non_alnum(cs@.take(i + 1)));
        } else {
            cur.push(c);
            assert(char_rows(parts@).push(cur@) =~= split_non_alnum(cs@.take(i + 1)));
        }
    }
    assert(cs@.take(cs.len() as int) =~= cs@);
    let ghost before = char_rows(parts@);
    let last = cur;
    parts.push(last);
    assert(char_rows(parts@) =~= before.push(last@));
    parts
}

fn is_title_word(t: &Vec<char>) -> (ok: bool)
    ensures
        ok == title_word(t@),
{
    if t.len() <= 2 {
        return false;
    }
    for i in 0..t.len()
        invariant
            t@.len() > 2,
            forall|j: int| 0 <= j < i ==> is_digit_char(#[trigger] t@[j]),
    {
        if !('0' <= t[i] && t[i] <= '9') {
            assert(!is_digit_char(t@[i as int]));
            assert(!all_digits(t@));
            return true;
        }
    }
    false
}

fn prefixed(prefix: &str, rest: &Vec<char>) -> (key: Vec<char>)
    ensures
        key@ == prefix@ + rest@,
{
    let mut key = chars_of(prefix);
    let ghost head = key@;
    for i in 0..rest.len()
        invariant
            key@ == head + rest@.take(i as int),
    {
        key.push(rest[i]);
        assert(rest@.take(i + 1) =~= rest@.take(i as int).push(rest@[i as int]));
        assert(key@ =~= head + rest@.take(i + 1));
    }
    assert(rest@.take(rest.len() as int) =~= rest@);
    key
}

/// `keys` and `kinds` hold the feature occurrences `es`.
pub open spec fn holds_entries(keys: Seq<Vec<char>>, kinds: Seq<FeatureKind>, es: Seq<FeatureEntry>) -> bool {
    &&& keys.len() == es.len()
    &&& kinds.len() == es.len()
    &&& forall|q: int| 0 <= q < es.len() ==> (#[trigger] es[q]) == (keys[q]@, kinds[q])
}

/// Lists the feature occurrences of a movie.
fn entries_of(movie: &Movie) -> (entries: (Vec<Vec<char>>, Vec<FeatureKind>))
    ensures
        holds_entries(entries.0@, entries.1@, feature_entries(movie@)),
{
    let mut keys: Vec<Vec<char>> = Vec::new();
    let mut kinds: Vec<FeatureKind> = Vec::new();
    let ghost m = movie@;
    let ghost genre_part = m.genres.map_values(|g: Seq<char>| ("genre:"@ + lowercase_of(g), FeatureKind::Genre));
    for i in 0..movie.genres.len()
        invariant
            m == movie@,
            genre_part == m.genres.map_values(|g: Seq<char>| ("genre:"@ + lowercase_of(g), FeatureKind::Genre)),
            holds_entries(keys@, kinds@, genre_part.take(i as int)),
    {
        let lower = to_lowercase(movie.genres[i].as_str());
        let lc = chars_of(lower.as_str());
        let key = prefixed("genre:", &lc);
        assert(m.genres[i as int] == movie.genres@[i as int]@);
        keys.push(key);
        kinds.push(FeatureKind::Genre);
        assert forall|q: int| 0 <= q < i + 1 implies (#[trigger] genre_part.take(i + 1)[q]) == (keys@[q]@, kinds@[q]) by {
            if q < i {
                assert(genre_part.take(i + 1)[q] == genre_part.take(i as int)[q]);
            }
        }
    }
    assert(genre_part.take(movie.genres.len() as int) =~= genre_part);
    let lower_title = to_lowercase(movie.title.as_str());
    let tc = chars_of(lower_title.as_str());
    let pieces = split_title(&tc);
    let ghost rows = char_rows(pieces@);
    let ghost mut seen_words: Seq<Seq<char>> = Seq::empty();
    let ghost tmap = |t: Seq<char>| ("title:"@ + t, FeatureKind::Title);
    for i in 0..pieces.len()
        invariant
            rows == char_rows(pieces@),
            rows == split_non_alnum(lowercase_of(m.title)),
            m == movie@,
            tmap == (|t: Seq<char>| ("title:"@ + t, FeatureKind::Title)),
            seen_words == title_words_of(rows.take(i as int)),
            holds_entries(keys@, kinds@, genre_part + seen_words.map_values(tmap)),
    {
        assert(rows.take(i + 1).drop_last() =~= rows.take(i as int));
        assert(rows[i as int] == pieces@[i as int]@);
        if is_title_word(&pieces[i]) {
            let key = prefixed("title:", &pieces[i]);
            let ghost before = genre_part + seen_words.map_values(tmap);
            keys.push(key);
            kinds.push(FeatureKind::Title);
            proof {
                seen_words = seen_words.push(rows[i as int]);
                assert(genre_part + seen_words.map_values(tmap) =~= before.push(tmap(rows[i as int])));
                assert forall|q: int| 0 <= q < keys@.len() implies (#[trigger] (genre_part + seen_words.map_values(tmap))[q]) == (keys@[q]@, kinds@[q]) by {
                    if q < before.len() {
                        assert((genre_part + seen_words.map_values(tmap))[q] == before[q]);
                    }
                }
            }
        }
    }
    assert(rows.take(pieces.len() as int) =~= rows);
    assert(title_words(lowercase_of(m.title)) == seen_words);
    let ghost middle = genre_part + seen_words.map_values(tmap);
    if let Some(y) = movie.release_year {
        let decade = decade_of(y);
        let dtext = crate::number::decimal_string(decade as u64);
        let dc = chars_of(dtext.as_str());
        let key = prefixed("decade:", &dc);
        keys.push(key);
        kinds.push(FeatureKind::Decade);
        let ghost last = ("decade:"@ + decimal_text(((y / 10) * 10) as nat), FeatureKind::Decade);
        assert(feature_entries(movie@) =~= middle.push(last));
        assert forall|q: int| 0 <= q < keys@.len() implies (#[trigger] middle.push(last)[q]) == (keys@[q]@, kinds@[q]) by {
            if q < middle.len() {
                assert(middle.push(last)[q] == middle[q]);
            }
        }
    } else {
        assert(feature_entries(movie@) =~= middle);
    }
    (keys, kinds)
}

fn decade_of(y: u16) -> (d: u16)
    ensures
        d == (y / 10) * 10,
{
    (y / 10) * 10
}

/// `keys`, `kinds` and `counts` hold the features `acc`.
pub open spec fn holds_tally(keys: Seq<Vec<char>>, kinds: Seq<FeatureKind>, counts: Seq<usize>, acc: Seq<(Seq<char>, FeatureKind, nat)>) -> bool {
    &&& keys.len() == acc.len()
    &&& kinds.len() == acc.len()
    &&& counts.len() == acc.len()
    &&& forall|q: int| 0 <= q < acc.len() ==> (#[trigger] acc[q]) == (keys[q]@, kinds[q], counts[q] as nat)
}

/// The content features of a movie: one per distinct key (`genre:` and the
/// lowercase genre, `title:` and a lowercase title word of more than two characters
/// that is not a number, `decade:` and the release decade), in order of first
/// occurrence, each with its kind and its number of occurrences.
pub fn movie_feature_counts(movie: &Movie) -> (features: Vec<Feature>)
    ensures
        feature_rows(features@) == movie_feature_spec(movie@),
{
    let (keys, kinds) = entries_of(movie);
    let ghost entries = feature_entries(movie@);
    let mut acc_keys: Vec<Vec<char>> = Vec::new();
    let mut acc_kinds: Vec<FeatureKind> = Vec::new();
    let mut acc_counts: Vec<usize> = Vec::new();
    proof {
        lemma_tally_bounds(entries);
    }
    let n = keys.len();
    for i in 0..n
        invariant
            n == keys@.len(),
            holds_entries(keys@, kinds@, entries),
            holds_tally(acc_keys@, acc_kinds@, acc_counts@, tally(entries.take(i as int))),
            forall|q: int| 0 <= q < acc_counts@.len() ==> #[trigger] acc_counts@[q] <= i,
    {
        let ghost acc = tally(entries.take(i as int));
        let ghost key = keys@[i as int]@;
        assert(entries.take(i + 1).drop_last() =~= entries.take(i as int));
        assert(entries[i as int] == (key, kinds@[i as int]));
        assert(entries.take(i + 1).last() == (key, kinds@[i as int]));
        proof {
            lemma_key_position(acc, key);
        }
        let mut p: usize = 0;
        let mut found = false;
        while !found && p < acc_keys.len()
            invariant
                holds_tally(acc_keys@, acc_kinds@, acc_counts@, acc),
                i < keys@.len(),
                key == keys@[i as int]@,
                p <= acc_keys@.len(),
                forall|q: int| 0 <= q < p ==> (#[trigger] acc[q]).0 != key,
                found ==> p < acc_keys@.len() && acc[p as int].0 == key,
            decreases acc_keys@.len() - p + if found { 0int } else { 1int },
        {
            if crate::text::same_chars(&acc_keys[p], &keys[i]) {
                found = true;
            } else {
                p = p + 1;
            }
        }
        if found {
            assert(key_position(acc, key) == p as int) by {
                if key_position(acc, key) < 0 {
                    assert(acc[p as int].0 != key);
                } else if key_position(acc, key) < p {
                    assert(acc[key_position(acc, key)].0 == key);
                } else if key_position(acc, key) > p {
                    lemma_key_position_first(acc, key, p as int);
                }
            }
            let c = acc_counts[p];
            acc_counts.set(p, c + 1);
            let ghost next = tally(entries.take(i + 1));
            assert(next == acc.update(p as int, (acc[p as int].0, acc[p as int].1, acc[p as int].2 + 1)));
            assert forall|q: int| 0 <= q < next.len() implies (#[trigger] next[q]) == (acc_keys@[q]@, acc_kinds@[q], acc_counts@[q] as nat) by {
                if q != p {
                    assert(next[q] == acc[q]);
                }
            }
        } else {
            assert(key_position(acc, key) < 0) by {
                if key_position(acc, key) >= 0 {
                    assert(acc[key_position(acc, key)].0 == key);
                }
            }
            let k = crate::text::copy_prefix(&keys[i], keys[i].len());
            assert(key.take(key.len() as int) =~= key);
            acc_keys.push(k);
            acc_kinds.push(kinds[i]);
            acc_counts.push(1);
            let ghost next = tally(entries.take(i + 1));
            assert(next == acc.push((key, kinds@[i as int], 1nat)));
            assert forall|q: int| 0 <= q < next.len() implies (#[trigger] next[q]) == (acc_keys@[q]@, acc_kinds@[q], acc_counts@[q] as nat) by {
                if q < acc.len() {
                    assert(next[q] == acc[q]);
                }
            }
        }
    }
    assert(entries.take(n as int) =~= entries);
    let ghost all = tally(entries);
    let mut features: Vec<Feature> = Vec::new();
    for j in 0..acc_keys.len()
        invariant
            holds_tally(acc_keys@, acc_kinds@, acc_counts@, all),
            feature_rows(features@) == all.take(j as int),
    {
        let key = crate::text::string_of(&acc_keys[j]);
        let ghost before = feature_rows(features@);
        features.push(Feature { key, kind: acc_kinds[j], count: acc_counts[j] });
        assert(feature_rows(features@) =~= before.push(all[j as int]));
        assert(all.take(j + 1) =~= all.take(j as int).push(all[j as int]));
    }
    assert(all.take(acc_keys.len() as int) =~= all);
    features
}

/// The sum of the counts of a list of features.
pub open spec fn total_count(acc: Seq<(Seq<char>, FeatureKind, nat)>) -> nat
    decreases acc.len(),
{
    if acc.len() == 0 {
        0
    } else {
        total_count(acc.drop_last()) + acc.last().2
    }
}

proof fn lemma_total_count_bump(acc: Seq<(Seq<char>, FeatureKind, nat)>, p: int)
    requires
        0 <= p < acc.len(),
    ensures
        total_count(acc.update(p, (acc[p].0, acc[p].1, acc[p].2 + 1))) == total_count(acc) + 1,
    decreases acc.len(),
{
    let u = acc.update(p, (acc[p].0, acc[p].1, acc[p].2 + 1));
    if p < acc.len() - 1 {
        lemma_total_count_bump(acc.drop_last(), p);
        assert(u.drop_last() =~= acc.drop_last().update(p, (acc[p].0, acc[p].1, acc[p].2 + 1)));
    } else {
        assert(u.drop_last() =~= acc.drop_last());
    }
}

proof fn lemma_tally_distinct(entries: Seq<FeatureEntry>)
    ensures
        forall|j: int, k: int|
            0 <= j < k < tally(entries).len() ==> (#[trigger] tally(entries)[j]).0 != (
            #[trigger] tally(entries)[k]).0,
        forall|j: int| 0 <= j < tally(entries).len() ==> (#[trigger] tally(entries)[j]).2 >= 1,
    decreases entries.len(),
{
    if entries.len() > 0 {
        let init = entries.drop_last();
        lemma_tally_distinct(init);
        let acc = tally(init);
        let k = entries.last().0;
        lemma_key_position(acc, k);
        let p = key_position(acc, k);
        let t = tally(entries);
        if p >= 0 {
            assert forall|j: int| 0 <= j < t.len() implies (#[trigger] t[j]).0 == acc[j].0 && t[j].2
                >= acc[j].2 by {}
        } else {
            assert forall|j: int| 0 <= j < acc.len() implies #[trigger] t[j] == acc[j] by {}
        }
    }
}

proof fn lemma_tally_covers(entries: Seq<FeatureEntry>)
    ensures
        forall|i: int|
            0 <= i < entries.len() ==> exists|j: int|
                0 <= j < tally(entries).len() && (#[trigger] tally(entries)[j]).0 == (
                #[trigger] entries[i]).0,
    decreases entries.len(),
{
    if entries.len() > 0 {
        let init = entries.drop_last();
        lemma_tally_covers(init);
        let acc = tally(init);
        let k = entries.last().0;
        lemma_key_position(acc, k);
        let p = key_position(acc, k);
        let t = tally(entries);
        assert(entries[entries.len() - 1] == entries.last());
        assert forall|i: int| 0 <= i < entries.len() implies exists|j: int|
            0 <= j < t.len() && (#[trigger] t[j]).0 == (#[trigger] entries[i]).0 by {
            if i < init.len() {
                assert(init[i] == entries[i]);
                let j = choose|j: int| 0 <= j < acc.len() && (#[trigger] acc[j]).0 == init[i].0;
                assert(t[j].0 == acc[j].0);
            } else if p >= 0 {
                assert(t[p].0 == entries[i].0);
            } else {
                assert(t[acc.len() as int].0 == entries[i].0);
            }
        }
    }
}

proof fn lemma_tally_source(entries: Seq<FeatureEntry>)
    ensures
        forall|j: int|
            0 <= j < tally(entries).len() ==> exists|i: int|
                0 <= i < entries.len() && (#[trigger] entries[i]) == ((#[trigger] tally(
                    entries,
                )[j]).0, tally(entries)[j].1),
    decreases entries.len(),
{
    if entries.len() > 0 {
        let init = entries.drop_last();
        lemma_tally_source(init);
        let acc = tally(init);
        let k = entries.last().0;
        lemma_key_position(acc, k);
        let p = key_position(acc, k);
        let t = tally(entries);
        assert(entries[entries.len() - 1] == entries.last());
        assert forall|j: int| 0 <= j < t.len() implies exists|i: int|
            0 <= i < entries.len() && (#[trigger] entries[i]) == ((#[trigger] t[j]).0, t[j].1) by {
            if j < acc.len() {
                let i = choose|i: int| 0 <= i < init.len() && (#[trigger] init[i]) == (acc[j].0, acc[j].1);
                assert(entries[i] == init[i]);
                assert(t[j].0 == acc[j].0 && t[j].1 == acc[j].1);
            } else {
                assert(entries[entries.len() - 1] == (t[j].0, t[j].1));
            }
        }
    }
}

proof fn lemma_tally_total(entries: Seq<FeatureEntry>)
    ensures
        total_count(tally(entries)) == entries.len(),
    decreases entries.len(),
{
    if entries.len() > 0 {
        let init = entries.drop_last();
        lemma_tally_total(init);
        let acc = tally(init);
        let (k, kind) = entries.last();
        lemma_key_position(acc, k);
        let p = key_position(acc, k);
        if p >= 0 {
            lemma_total_count_bump(acc, p);
        } else {
            assert(tally(entries).drop_last() =~= acc);
        }
    }
}

/// Counting feature occurrences loses and invents nothing: the features have
/// distinct keys, each with a count of at least one; every occurrence's key is a
/// feature key and every feature key is an occurrence's key, with the kind of an
/// occurrence; and the counts add up to the number of occurrences.
pub proof fn lemma_tally(entries: Seq<FeatureEntry>)
    ensures
        forall|j: int, k: int|
            0 <= j < k < tally(entries).len() ==> (#[trigger] tally(entries)[j]).0 != (
            #[trigger] tally(entries)[k]).0,
        forall|j: int| 0 <= j < tally(entries).len() ==> (#[trigger] tally(entries)[j]).2 >= 1,
        forall|i: int|
            0 <= i < entries.len() ==> exists|j: int|
                0 <= j < tally(entries).len() && (#[trigger] tally(entries)[j]).0 == (
                #[trigger] entries[i]).0,
        forall|j: int|
            0 <= j < tally(entries).len() ==> exists|i: int|
                0 <= i < entries.len() && (#[trigger] entries[i]) == ((#[trigger] tally(
                    entries,
                )[j]).0, tally(entries)[j].1),
        total_count(tally(entries)) == entries.len(),
{
    lemma_tally_distinct(entries);
    lemma_tally_covers(entries);
    lemma_tally_source(entries);
    lemma_tally_total(entries);
}

proof fn lemma_prefix_differs(p1: Seq<char>, p2: Seq<char>, x: Seq<char>, y: Seq<char>)
    requires
        p1.len() > 0,
        p2.len() > 0,
        p1[0] != p2[0],
    ensures
        p1 + x != p2 + y,
{
    assert((p1 + x)[0] == p1[0]);
    assert((p2 + y)[0] == p2[0]);
}

proof fn lemma_entry_kinds(m: MovieView, i: int)
    requires
        0 <= i < feature_entries(m).len(),
    ensures
        feature_entries(m)[i].1 == FeatureKind::Genre ==> exists|g: Seq<char>| feature_entries(m)[i].0 == "genre:"@ + g,
        feature_entries(m)[i].1 == FeatureKind::Title ==> exists|w: Seq<char>| feature_entries(m)[i].0 == "title:"@ + w,
        feature_entries(m)[i].1 == FeatureKind::Decade ==> exists|d: Seq<char>| feature_entries(m)[i].0 == "decade:"@ + d,
        i < m.genres.len() ==> feature_entries(m)[i] == ("genre:"@ + lowercase_of(m.genres[i]), FeatureKind::Genre),
{
    let gp = m.genres.map_values(|g: Seq<char>| ("genre:"@ + lowercase_of(g), FeatureKind::Genre));
    let tp = title_words(lowercase_of(m.title)).map_values(
        |t: Seq<char>| ("title:"@ + t, FeatureKind::Title),
    );
    let es = feature_entries(m);
    if i < gp.len() {
        assert(es[i] == gp[i]);
    } else if i < gp.len() + tp.len() {
        assert(es[i] == tp[i - gp.len()]);
    } else {
        let y = m.release_year->0;
        assert(es[i] == ("decade:"@ + decimal_text(((y / 10) * 10) as nat), FeatureKind::Decade));
    }
}

/// A feature key tells its kind: genre, title and decade keys start differently.
proof fn lemma_key_kind(m: MovieView, i: int, k: Seq<char>, kind: FeatureKind, x: Seq<char>)
    requires
        0 <= i < feature_entries(m).len(),
        feature_entries(m)[i].0 == k,
        kind == FeatureKind::Genre ==> k == "genre:"@ + x,
        kind == FeatureKind::Decade ==> k == "decade:"@ + x,
        kind != FeatureKind::Title,
    ensures
        feature_entries(m)[i].1 == kind,
{
    reveal_strlit("genre:");
    reveal_strlit("title:");
    reveal_strlit("decade:");
    lemma_entry_kinds(m, i);
    let e = feature_entries(m)[i];
    if e.1 == FeatureKind::Genre && kind == FeatureKind::Decade {
        let g = choose|g: Seq<char>| e.0 == "genre:"@ + g;
        lemma_prefix_differs("genre:"@, "decade:"@, g, x);
    } else if e.1 == FeatureKind::Decade && kind == FeatureKind::Genre {
        let d = choose|d: Seq<char>| e.0 == "decade:"@ + d;
        lemma_prefix_differs("decade:"@, "genre:"@, d, x);
    } else if e.1 == FeatureKind::Title {
        let w = choose|w: Seq<char>| e.0 == "title:"@ + w;
        if kind == FeatureKind::Genre {
            lemma_prefix_differs("title:"@, "genre:"@, w, x);
        } else {
            lemma_prefix_differs("title:"@, "decade:"@, w, x);
        }
    }
}

proof fn lemma_movie_genre_feature(m: MovieView, i: int)
    requires
        0 <= i < m.genres.len(),
    ensures
        exists|j: int|
            0 <= j < movie_feature_spec(m).len() && (#[trigger] movie_feature_spec(m)[j]).0 == "genre:"@
                + lowercase_of(m.genres[i]) && movie_feature_spec(m)[j].1 == FeatureKind::Genre,
{
    let es = feature_entries(m);
    lemma_tally_covers(es);
    lemma_tally_source(es);
    let t = tally(es);
    lemma_entry_kinds(m, i);
    let j = choose|j: int| 0 <= j < t.len() && (#[trigger] t[j]).0 == es[i].0;
    let i2 = choose|i2: int| 0 <= i2 < es.len() && (#[trigger] es[i2]) == (t[j].0, t[j].1);
    assert(es[i].0 == "genre:"@ + lowercase_of(m.genres[i]));
    assert(t[j].0 == "genre:"@ + lowercase_of(m.genres[i]));
    lemma_key_kind(m, i2, t[j].0, FeatureKind::Genre, lowercase_of(m.genres[i]));
    assert(t[j].1 == FeatureKind::Genre);
    assert(movie_feature_spec(m) == t);
    assert(movie_feature_spec(m)[j].0 == "genre:"@ + lowercase_of(m.genres[i]));
}

proof fn lemma_feature_entries_shape(m: MovieView)
    ensures
        feature_entries(m).len() == m.genres.len() + title_words(lowercase_of(m.title)).len() + if m.release_year is Some {
            1int
        } else {
            0int
        },
        m.release_year matches Some(y) ==> feature_entries(m).last() == (
            "decade:"@ + decimal_text(((y / 10) * 10) as nat),
            FeatureKind::Decade,
        ),
{
}

proof fn lemma_movie_decade_feature(m: MovieView)
    requires
        m.release_year is Some,
    ensures
        exists|j: int|
            0 <= j < movie_feature_spec(m).len() && (#[trigger] movie_feature_spec(m)[j]).0 == "decade:"@
                + decimal_text(((m.release_year->0 / 10) * 10) as nat) && movie_feature_spec(m)[j].1
                == FeatureKind::Decade,
{
    let es = feature_entries(m);
    lemma_feature_entries_shape(m);
    lemma_tally_covers(es);
    lemma_tally_source(es);
    let t = tally(es);
    let y = m.release_year->0;
    let q = es.len() - 1;
    assert(es[q] == es.last());
    let j = choose|j: int| 0 <= j < t.len() && (#[trigger] t[j]).0 == es[q].0;
    let i2 = choose|i2: int| 0 <= i2 < es.len() && (#[trigger] es[i2]) == (t[j].0, t[j].1);
    assert(t[j].0 == "decade:"@ + decimal_text(((y / 10) * 10) as nat));
    lemma_key_kind(m, i2, t[j].0, FeatureKind::Decade, decimal_text(((y / 10) * 10) as nat));
    assert(t[j].1 == FeatureKind::Decade);
    assert(movie_feature_spec(m) == t);
    assert(movie_feature_spec(m)[j].0 == "decade:"@ + decimal_text(((y / 10) * 10) as nat));
}

/// The features of a movie: every genre gives a genre feature keyed `genre:` and
/// the lowercase genre, a known release year gives a decade feature keyed `decade:`
/// and the year rounded down to its decade; keys are distinct, and the counts add
/// up to the number of genres plus the number of title words plus one for a known
/// year.
pub proof fn lemma_movie_features(m: MovieView)
    ensures
        forall|i: int|
            0 <= i < m.genres.len() ==> exists|j: int|
                0 <= j < movie_feature_spec(m).len() && (#[trigger] movie_feature_spec(m)[j]).0 == "genre:"@
                    + lowercase_of(#[trigger] m.genres[i]) && movie_feature_spec(m)[j].1
                    == FeatureKind::Genre,
        m.release_year is Some ==> exists|j: int|
            0 <= j < movie_feature_spec(m).len() && (#[trigger] movie_feature_spec(m)[j]).0 == "decade:"@
                + decimal_text(((m.release_year->0 / 10) * 10) as nat) && movie_feature_spec(m)[j].1
                == FeatureKind::Decade,
        forall|j: int, k: int|
            0 <= j < k < movie_feature_spec(m).len() ==> (#[trigger] movie_feature_spec(m)[j]).0 != (
            #[trigger] movie_feature_spec(m)[k]).0,
        total_count(movie_feature_spec(m)) == m.genres.len() + title_words(lowercase_of(m.title)).len()
            + if m.release_year is Some {
            1int
        } else {
            0int
        },
{
    let es = feature_entries(m);
    lemma_tally_distinct(es);
    lemma_tally_total(es);
    lemma_feature_entries_shape(m);
    assert forall|i: int| 0 <= i < m.genres.len() implies exists|j: int|
        0 <= j < movie_feature_spec(m).len() && (#[trigger] movie_feature_spec(m)[j]).0 == "genre:"@
            + lowercase_of(#[trigger] m.genres[i]) && movie_feature_spec(m)[j].1 == FeatureKind::Genre by {
        lemma_movie_genre_feature(m, i);
    }
    if m.release_year is Some {
        lemma_movie_decade_feature(m);
    }
}

proof fn lemma_key_position_first(acc: Seq<(Seq<char>, FeatureKind, nat)>, k: Seq<char>, p: int)
    requires
        0 <= p < acc.len(),
        acc[p].0 == k,
    ensures
        0 <= key_position(acc, k) <= p,
    decreases acc.len(),
{
    lemma_key_position(acc, k);
    if p < acc.len() - 1 {
        assert(acc.drop_last()[p] == acc[p]);
        lemma_key_position_first(acc.drop_last(), k, p);
    } else {
        lemma_key_position(acc.drop_last(), k);
    }
}

} // verus!
