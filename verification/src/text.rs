use vstd::prelude::*;
use vstd::utf8::is_char_boundary;
use vstd::string::StringSliceAdditionalSpecFns;

verus! {

/// The characters of a string slice, in order.
pub fn chars_of(s: &str) -> (out: Vec<char>)
    ensures
        out@ == s@,
{
    let mut out: Vec<char> = Vec::new();
    for c in it: s.chars()
        invariant
            out@ == it.seq().take(it.index() as int),
            it.seq() == s@,
    {
        out.push(c);
    }
    out
}


/// `b` is the byte of an ASCII decimal digit.
pub open spec fn is_digit_byte(b: u8) -> bool {
    48 <= b <= 57
}

/// The four bytes of `b` from `i` on are ASCII digits.
pub open spec fn four_digits_at(b: Seq<u8>, i: int) -> bool {
    &&& is_digit_byte(b[i])
    &&& is_digit_byte(b[i + 1])
    &&& is_digit_byte(b[i + 2])
    &&& is_digit_byte(b[i + 3])
}

/// The decimal number written by the four digit bytes of `b` from `i` on.
pub open spec fn four_digit_value(b: Seq<u8>, i: int) -> int {
    1000 * (b[i] - 48) + 100 * (b[i + 1] - 48) + 10 * (b[i + 2] - 48) + (b[i + 3] - 48)
}

/// A four-digit year between 1900 and 2100 stands in `b` at byte `i`.
pub open spec fn year_at(b: Seq<u8>, i: int) -> bool {
    four_digits_at(b, i) && 1900 <= four_digit_value(b, i) <= 2100
}

/// The year found by scanning the UTF-8 bytes `b` from byte `i` on: the first window
/// of four bytes that holds a year between 1900 and 2100. The scan gives up (no year)
/// at the first window that does not start and end on a character boundary.
pub open spec fn year_scan(b: Seq<u8>, i: int) -> Option<u16>
    decreases b.len() - i,
{
    if i < 0 || i + 4 > b.len() {
        None
    } else if !(is_char_boundary(b, i) && is_char_boundary(b, i + 4)) {
        None
    } else if year_at(b, i) {
        Some(four_digit_value(b, i) as u16)
    } else {
        year_scan(b, i + 1)
    }
}

/// Finds a release year in a text such as a title "Toy Story (1995)" or a date
/// "01-Jan-1995": the first four ASCII digits in a row, read as a number between
/// 1900 and 2100, scanning byte by byte and stopping at the first window of four
/// bytes that does not lie on character boundaries.
pub fn extract_year(text: &str) -> (year: Option<u16>)
    ensures
        year == year_scan(text.spec_bytes(), 0),
        year matches Some(y) ==> 1900 <= y <= 2100,
{
    let bytes = text.as_bytes();
    let len = bytes.len();
    let end = if len >= 3 { len - 3 } else { 0 };
    let ghost b = text.spec_bytes();
    proof {
        vstd::utf8::encode_utf8_valid_utf8(text@);
    }
    let mut i: usize = 0;
    while i < end
        invariant
            bytes@ == b,
            b == text.spec_bytes(),
            vstd::utf8::valid_utf8(b),
            len == b.len(),
            end == if len >= 3 { len - 3 } else { 0 },
            i <= end,
            year_scan(b, 0) == year_scan(b, i as int),
        decreases end - i,
    {
        let start_ok = text.is_char_boundary(i);
        let end_ok = text.is_char_boundary(i + 4);
        if !(start_ok && end_ok) {
            return None;
        }
        let b0 = bytes[i];
        let b1 = bytes[i + 1];
        let b2 = bytes[i + 2];
        let b3 = bytes[i + 3];
        if 48 <= b0 && b0 <= 57 && 48 <= b1 && b1 <= 57 && 48 <= b2 && b2 <= 57 && 48 <= b3
            && b3 <= 57 {
            let value: u16 = 1000 * (b0 - 48) as u16 + 100 * (b1 - 48) as u16 + 10 * (b2
                - 48) as u16 + (b3 - 48) as u16;
            if 1900 <= value && value <= 2100 {
                return Some(value);
            }
        }
        i = i + 1;
    }
    None
}


/// Appends one character to a string by calling `String::push`. Trusted: its
/// contract claims that the string afterwards holds its former characters followed
/// by `c`, as the standard library documents.
#[verifier::external_body]
pub fn push_char(s: &mut String, c: char)
    ensures
        final(s)@ == old(s)@.push(c),
{
    s.push(c);
}


/// The pieces of `s` between occurrences of `sep`, as `str::split` gives them: one
/// more piece than there are separators, empty pieces included.
pub open spec fn split_on(s: Seq<char>, sep: char) -> Seq<Seq<char>>
    decreases s.len(),
{
    if s.len() == 0 {
        seq![Seq::<char>::empty()]
    } else {
        let parts = split_on(s.drop_last(), sep);
        if s.last() == sep {
            parts.push(Seq::<char>::empty())
        } else {
            parts.update(parts.len() - 1, parts.last().push(s.last()))
        }
    }
}

/// A split always has at least one piece.
pub proof fn lemma_split_on_len(s: Seq<char>, sep: char)
    ensures
        split_on(s, sep).len() >= 1,
    decreases s.len(),
{
    if s.len() > 0 {
        lemma_split_on_len(s.drop_last(), sep);
    }
}

/// `l` without one trailing carriage return, if it has one.
pub open spec fn strip_cr(l: Seq<char>) -> Seq<char> {
    if l.len() > 0 && l.last() == '\r' {
        l.drop_last()
    } else {
        l
    }
}

/// The lines of a text as `str::lines` gives them: split at `\n`, a `\r` before
/// the `\n` removed, and no empty last line after a final line feed.
pub open spec fn text_lines(s: Seq<char>) -> Seq<Seq<char>> {
    let parts = split_on(s, '\n');
    let ended = parts.drop_last().map_values(|p: Seq<char>| strip_cr(p));
    if parts.last().len() == 0 {
        ended
    } else {
        ended.push(parts.last())
    }
}

/// `c` has the Unicode `White_Space` property (what `char::is_whitespace` tests).
pub open spec fn is_white_space(c: char) -> bool {
    let u = c as u32;
    ||| 0x09 <= u <= 0x0d
    ||| u == 0x20
    ||| u == 0x85
    ||| u == 0xa0
    ||| u == 0x1680
    ||| 0x2000 <= u <= 0x200a
    ||| u == 0x2028
    ||| u == 0x2029
    ||| u == 0x202f
    ||| u == 0x205f
    ||| u == 0x3000
}

/// Tests the Unicode `White_Space` property of a character.
pub fn is_whitespace(c: char) -> (b: bool)
    ensures
        b == is_white_space(c),
{
    let u = c as u32;
    (0x09 <= u && u <= 0x0d) || u == 0x20 || u == 0x85 || u == 0xa0 || u == 0x1680 || (0x2000
        <= u && u <= 0x200a) || u == 0x2028 || u == 0x2029 || u == 0x202f || u == 0x205f || u
        == 0x3000
}

/// The pieces of `s` between whitespace characters, empty pieces included.
pub open spec fn split_white(s: Seq<char>) -> Seq<Seq<char>>
    decreases s.len(),
{
    if s.len() == 0 {
        seq![Seq::<char>::empty()]
    } else {
        let parts = split_white(s.drop_last());
        if is_white_space(s.last()) {
            parts.push(Seq::<char>::empty())
        } else {
            parts.update(parts.len() - 1, parts.last().push(s.last()))
        }
    }
}

pub proof fn lemma_split_white_len(s: Seq<char>)
    ensures
        split_white(s).len() >= 1,
    decreases s.len(),
{
    if s.len() > 0 {
        lemma_split_white_len(s.drop_last());
    }
}

/// The non-empty pieces of `p`, in order.
pub open spec fn non_empty(p: Seq<Seq<char>>) -> Seq<Seq<char>>
    decreases p.len(),
{
    if p.len() == 0 {
        Seq::empty()
    } else if p.last().len() > 0 {
        non_empty(p.drop_last()).push(p.last())
    } else {
        non_empty(p.drop_last())
    }
}

/// The words of `s` as `str::split_whitespace` gives them: the non-empty runs of
/// characters between Unicode whitespace.
pub open spec fn words(s: Seq<char>) -> Seq<Seq<char>> {
    non_empty(split_white(s))
}

/// The character sequences held by a vector of character vectors.
pub open spec fn char_rows(v: Seq<Vec<char>>) -> Seq<Seq<char>> {
    v.map_values(|x: Vec<char>| x@)
}

/// A string holding the characters `cs`.
pub fn string_of(cs: &Vec<char>) -> (s: String)
    ensures
        s@ == cs@,
{
    let mut s = String::new();
    for i in 0..cs.len()
        invariant
            s@ == cs@.take(i as int),
    {
        push_char(&mut s, cs[i]);
        assert(cs@.take(i + 1) =~= cs@.take(i as int).push(cs@[i as int]));
    }
    assert(cs@.take(cs.len() as int) =~= cs@);
    s
}

/// Splits `cs` at every `sep`, like `str::split`.
pub fn split_chars(cs: &Vec<char>, sep: char) -> (parts: Vec<Vec<char>>)
    ensures
        char_rows(parts@) == split_on(cs@, sep),
{
    let mut parts: Vec<Vec<char>> = Vec::new();
    let mut cur: Vec<char> = Vec::new();
    for i in 0..cs.len()
        invariant
            char_rows(parts@).push(cur@) == split_on(cs@.take(i as int), sep),
    {
        let c = cs[i];
        let ghost prev = cs@.take(i as int);
        assert(cs@.take(i + 1).drop_last() =~= prev);
        proof {
            lemma_split_on_len(prev, sep);
        }
        if c == sep {
            let done = cur;
            let ghost before = char_rows(parts@);
            parts.push(done);
            cur = Vec::new();
            assert(char_rows(parts@) =~= before.push(done@));
            assert(char_rows(parts@).push(cur@) =~= split_on(cs@.take(i + 1), sep));
        } else {
            let ghost before = cur@;
            cur.push(c);
            assert(char_rows(parts@).push(cur@) =~= split_on(cs@.take(i + 1), sep));
        }
    }
    assert(cs@.take(cs.len() as int) =~= cs@);
    let ghost before = char_rows(parts@);
    let last = cur;
    parts.push(last);
    assert(char_rows(parts@) =~= before.push(last@));
    parts
}


/// A copy of the first `len` characters of `v`.
pub fn copy_prefix(v: &Vec<char>, len: usize) -> (out: Vec<char>)
    requires
        len <= v@.len(),
    ensures
        out@ == v@.take(len as int),
{
    let mut out: Vec<char> = Vec::new();
    for i in 0..len
        invariant
            len <= v@.len(),
            out@ == v@.take(i as int),
    {
        out.push(v[i]);
        assert(v@.take(i + 1) =~= v@.take(i as int).push(v@[i as int]));
    }
    out
}

/// The lines of `text`, as `str::lines` gives them.
pub fn lines_of(text: &str) -> (lines: Vec<Vec<char>>)
    ensures
        char_rows(lines@) == text_lines(text@),
{
    let cs = chars_of(text);
    let parts = split_chars(&cs, '\n');
    proof {
        lemma_split_on_len(text@, '\n');
    }
    let n = parts.len();
    let ghost rows = char_rows(parts@);
    let mut out: Vec<Vec<char>> = Vec::new();
    for i in 0..n - 1
        invariant
            n == parts@.len(),
            n >= 1,
            rows == char_rows(parts@),
            rows == split_on(text@, '\n'),
            char_rows(out@) == rows.drop_last().take(i as int).map_values(
                |p: Seq<char>| strip_cr(p),
            ),
    {
        let part = &parts[i];
        let k = part.len();
        let line = if k > 0 && part[k - 1] == '\r' {
            copy_prefix(part, k - 1)
        } else {
            copy_prefix(part, k)
        };
        assert(part@.take(k as int) =~= part@);
        assert(rows[i as int] == part@);
        assert(line@ == strip_cr(rows[i as int]));
        let ghost before = char_rows(out@);
        out.push(line);
        assert(char_rows(out@) =~= before.push(line@));
        assert(rows.drop_last().take(i + 1).map_values(|p: Seq<char>| strip_cr(p)) =~= before.push(
            strip_cr(rows[i as int]),
        ));
    }
    assert(rows.drop_last().take(n - 1) =~= rows.drop_last());
    let last = &parts[n - 1];
    assert(rows.last() == last@);
    if last.len() > 0 {
        let k = last.len();
        let copy = copy_prefix(last, k);
        assert(last@.take(k as int) =~= last@);
        let ghost before = char_rows(out@);
        out.push(copy);
        assert(char_rows(out@) =~= before.push(copy@));
    }
    out
}

/// The words of `cs`, as `str::split_whitespace` gives them.
pub fn words_of(cs: &Vec<char>) -> (ws: Vec<Vec<char>>)
    ensures
        char_rows(ws@) == words(cs@),
{
    let mut out: Vec<Vec<char>> = Vec::new();
    let mut cur: Vec<char> = Vec::new();
    for i in 0..cs.len()
        invariant
            split_white(cs@.take(i as int)).len() >= 1,
            char_rows(out@) == non_empty(split_white(cs@.take(i as int)).drop_last()),
            cur@ == split_white(cs@.take(i as int)).last(),
    {
        let c = cs[i];
        let ghost raw = split_white(cs@.take(i as int));
        assert(cs@.take(i + 1).drop_last() =~= cs@.take(i as int));
        if is_whitespace(c) {
            let ghost new_raw = split_white(cs@.take(i + 1));
            assert(new_raw == raw.push(Seq::<char>::empty()));
            assert(new_raw.drop_last() =~= raw);
            if cur.len() > 0 {
                let done = cur;
                let ghost before = char_rows(out@);
                out.push(done);
                assert(char_rows(out@) =~= before.push(done@));
            }
            cur = Vec::new();
            assert(cur@ =~= new_raw.last());
        } else {
            let ghost new_raw = split_white(cs@.take(i + 1));
            assert(new_raw.drop_last() =~= raw.drop_last());
            cur.push(c);
        }
    }
    assert(cs@.take(cs.len() as int) =~= cs@);
    let ghost raw = split_white(cs@);
    if cur.len() > 0 {
        let done = cur;
        let ghost before = char_rows(out@);
        out.push(done);
        assert(char_rows(out@) =~= before.push(done@));
    }
    out
}

/// The pieces `parts` joined with `sep` between consecutive pieces.
pub open spec fn join_with(parts: Seq<Seq<char>>, sep: char) -> Seq<char>
    decreases parts.len(),
{
    if parts.len() == 0 {
        Seq::empty()
    } else if parts.len() == 1 {
        parts[0]
    } else {
        join_with(parts.drop_last(), sep) + seq![sep] + parts.last()
    }
}

/// No character of `s` is `c`.
pub open spec fn free_of(s: Seq<char>, c: char) -> bool {
    forall|i: int| 0 <= i < s.len() ==> s[i] != c
}

/// No character of `s` is whitespace.
pub open spec fn free_of_white(s: Seq<char>) -> bool {
    forall|i: int| 0 <= i < s.len() ==> !is_white_space(#[trigger] s[i])
}

proof fn lemma_split_on_append_free(x: Seq<char>, y: Seq<char>, sep: char)
    requires
        free_of(y, sep),
    ensures
        split_on(x + y, sep) == split_on(x, sep).update(
            split_on(x, sep).len() - 1,
            split_on(x, sep).last() + y,
        ),
    decreases y.len(),
{
    lemma_split_on_len(x, sep);
    if y.len() == 0 {
        assert(x + y =~= x);
        assert(split_on(x, sep).last() + y =~= split_on(x, sep).last());
        assert(split_on(x, sep).update(split_on(x, sep).len() - 1, split_on(x, sep).last())
            =~= split_on(x, sep));
    } else {
        let y0 = y.drop_last();
        assert(free_of(y0, sep));
        lemma_split_on_append_free(x, y0, sep);
        assert((x + y).drop_last() =~= x + y0);
        assert((x + y).last() == y.last());
        assert(y[y.len() - 1] != sep);
        let s0 = split_on(x, sep);
        let p = split_on(x + y0, sep);
        assert(p.len() == s0.len());
        assert(p.last() == s0.last() + y0);
        assert(split_on(x + y, sep) == p.update(p.len() - 1, p.last().push(y.last())));
        assert((s0.last() + y0).push(y.last()) =~= s0.last() + y);
        assert(split_on(x + y, sep) =~= s0.update(s0.len() - 1, s0.last() + y));
    }
}

/// Splitting pieces joined with `sep` gives the pieces back, when no piece holds `sep`.
pub proof fn lemma_split_on_join(parts: Seq<Seq<char>>, sep: char)
    requires
        parts.len() >= 1,
        forall|i: int| 0 <= i < parts.len() ==> free_of(#[trigger] parts[i], sep),
    ensures
        split_on(join_with(parts, sep), sep) == parts,
    decreases parts.len(),
{
    if parts.len() == 1 {
        lemma_split_on_append_free(Seq::empty(), parts[0], sep);
        assert(Seq::<char>::empty() + parts[0] =~= parts[0]);
        assert(Seq::<char>::empty() + parts[0] =~= parts[0]);
        assert(split_on(parts[0], sep) =~= parts);
    } else {
        let init = parts.drop_last();
        assert(forall|i: int| 0 <= i < init.len() ==> init[i] == parts[i]);
        lemma_split_on_join(init, sep);
        let j = join_with(init, sep);
        let js = j.push(sep);
        assert(js.drop_last() =~= j);
        assert(split_on(js, sep) == parts.drop_last().push(Seq::<char>::empty()));
        assert(free_of(parts.last(), sep));
        lemma_split_on_append_free(js, parts.last(), sep);
        assert(j + seq![sep] + parts.last() =~= js + parts.last());
        assert(Seq::<char>::empty() + parts.last() =~= parts.last());
        assert(split_on(join_with(parts, sep), sep) =~= parts);
    }
}

proof fn lemma_split_white_append_free(x: Seq<char>, y: Seq<char>)
    requires
        free_of_white(y),
    ensures
        split_white(x + y) == split_white(x).update(
            split_white(x).len() - 1,
            split_white(x).last() + y,
        ),
    decreases y.len(),
{
    lemma_split_white_len(x);
    if y.len() == 0 {
        assert(x + y =~= x);
        assert(split_white(x).last() + y =~= split_white(x).last());
        assert(split_white(x).update(split_white(x).len() - 1, split_white(x).last())
            =~= split_white(x));
    } else {
        let y0 = y.drop_last();
        assert(free_of_white(y0)) by {
            assert(forall|i: int| 0 <= i < y0.len() ==> y0[i] == y[i]);
        }
        lemma_split_white_append_free(x, y0);
        assert((x + y).drop_last() =~= x + y0);
        assert((x + y).last() == y.last());
        assert(!is_white_space(y[y.len() - 1]));
        let s0 = split_white(x);
        let p = split_white(x + y0);
        assert(p.len() == s0.len());
        assert(p.last() == s0.last() + y0);
        assert(split_white(x + y) == p.update(p.len() - 1, p.last().push(y.last())));
        assert((s0.last() + y0).push(y.last()) =~= s0.last() + y);
        assert(split_white(x + y) =~= s0.update(s0.len() - 1, s0.last() + y));
    }
}

/// The words of non-empty whitespace-free pieces joined with a whitespace character
/// are the pieces.
pub proof fn lemma_words_join(parts: Seq<Seq<char>>, sep: char)
    requires
        parts.len() >= 1,
        is_white_space(sep),
        forall|i: int| 0 <= i < parts.len() ==> free_of_white(#[trigger] parts[i]),
        forall|i: int| 0 <= i < parts.len() ==> (#[trigger] parts[i]).len() > 0,
    ensures
        split_white(join_with(parts, sep)) == parts,
        words(join_with(parts, sep)) == parts,
    decreases parts.len(),
{
    if parts.len() == 1 {
        lemma_split_white_append_free(Seq::empty(), parts[0]);
        assert(Seq::<char>::empty() + parts[0] =~= parts[0]);
        assert(split_white(parts[0]) =~= parts);
        assert(parts.drop_last() =~= Seq::<Seq<char>>::empty());
        assert(non_empty(parts.drop_last()) == Seq::<Seq<char>>::empty());
        assert(parts.last() == parts[0]);
        assert(non_empty(parts) == non_empty(parts.drop_last()).push(parts.last()));
        assert(non_empty(parts) =~= parts);
    } else {
        let init = parts.drop_last();
        assert(forall|i: int| 0 <= i < init.len() ==> init[i] == parts[i]);
        lemma_words_join(init, sep);
        let j = join_with(init, sep);
        let js = j.push(sep);
        assert(js.drop_last() =~= j);
        assert(split_white(js) == init.push(Seq::<char>::empty()));
        assert(free_of_white(parts.last()));
        lemma_split_white_append_free(js, parts.last());
        assert(j + seq![sep] + parts.last() =~= js + parts.last());
        assert(Seq::<char>::empty() + parts.last() =~= parts.last());
        assert(split_white(join_with(parts, sep)) =~= parts);
        assert(parts.drop_last() =~= init);
        assert(non_empty(parts) =~= non_empty(init).push(parts.last()));
    }
}

/// Joining two non-empty runs of pieces puts one separator between their joins.
pub proof fn lemma_join_append(a: Seq<Seq<char>>, b: Seq<Seq<char>>, sep: char)
    requires
        a.len() >= 1,
        b.len() >= 1,
    ensures
        join_with(a + b, sep) == join_with(a, sep) + seq![sep] + join_with(b, sep),
    decreases b.len(),
{
    if b.len() == 1 {
        assert((a + b).drop_last() =~= a);
        assert((a + b).last() == b[0]);
    } else {
        assert((a + b).drop_last() =~= a + b.drop_last());
        lemma_join_append(a, b.drop_last(), sep);
        assert((a + b).last() == b.last());
        assert(join_with(a + b, sep) =~= join_with(a, sep) + seq![sep] + join_with(b, sep));
    }
}

/// Pieces free of a character, joined with a different separator, are free of it.
pub proof fn lemma_join_free(parts: Seq<Seq<char>>, sep: char, c: char)
    requires
        sep != c,
        forall|i: int| 0 <= i < parts.len() ==> free_of(#[trigger] parts[i], c),
    ensures
        free_of(join_with(parts, sep), c),
    decreases parts.len(),
{
    if parts.len() > 1 {
        let init = parts.drop_last();
        assert(forall|i: int| 0 <= i < init.len() ==> init[i] == parts[i]);
        lemma_join_free(init, sep, c);
        assert(free_of(parts.last(), c));
        let j = join_with(init, sep);
        let whole = j + seq![sep] + parts.last();
        assert forall|k: int| 0 <= k < whole.len() implies whole[k] != c by {
            if k < j.len() {
                assert(whole[k] == j[k]);
            } else if k > j.len() {
                assert(whole[k] == parts.last()[k - j.len() - 1]);
            }
        }
    } else if parts.len() == 1 {
        assert(free_of(parts[0], c));
    }
}

/// Joined pieces end with the last character of the last piece, when it has one.
pub proof fn lemma_join_last(parts: Seq<Seq<char>>, sep: char)
    requires
        parts.len() >= 1,
        parts.last().len() > 0,
    ensures
        join_with(parts, sep).len() > 0,
        join_with(parts, sep).last() == parts.last().last(),
{
    if parts.len() == 1 {
        assert(parts[0] == parts.last());
    }
}

/// The text made of the given lines, each followed by a line feed.
pub open spec fn lines_text(lines: Seq<Seq<char>>) -> Seq<char>
    decreases lines.len(),
{
    if lines.len() == 0 {
        Seq::empty()
    } else {
        lines_text(lines.drop_last()) + lines.last() + seq!['\n']
    }
}

/// `l` can stand as a line: it holds no line feed and does not end in a carriage return.
pub open spec fn plain_line(l: Seq<char>) -> bool {
    free_of(l, '\n') && !(l.len() > 0 && l.last() == '\r')
}

proof fn lemma_lines_text_join(lines: Seq<Seq<char>>)
    requires
        lines.len() >= 1,
    ensures
        lines_text(lines) == join_with(lines, '\n') + seq!['\n'],
    decreases lines.len(),
{
    if lines.len() == 1 {
        assert(lines.drop_last() =~= Seq::<Seq<char>>::empty());
        assert(lines_text(lines.drop_last()) == Seq::<char>::empty());
        assert(lines.last() == lines[0]);
        assert(lines_text(lines) =~= join_with(lines, '\n') + seq!['\n']);
    } else {
        lemma_lines_text_join(lines.drop_last());
        assert(lines_text(lines) =~= join_with(lines, '\n') + seq!['\n']);
    }
}

/// Reading the lines of a text written line by line gives the lines back.
pub proof fn lemma_text_lines_of_lines_text(lines: Seq<Seq<char>>)
    requires
        forall|i: int| 0 <= i < lines.len() ==> plain_line(#[trigger] lines[i]),
    ensures
        text_lines(lines_text(lines)) == lines,
{
    if lines.len() == 0 {
        assert(text_lines(Seq::empty()) =~= lines);
    } else {
        lemma_lines_text_join(lines);
        let j = join_with(lines, '\n');
        assert forall|i: int| 0 <= i < lines.len() implies free_of(#[trigger] lines[i], '\n') by {
            assert(plain_line(lines[i]));
        }
        lemma_split_on_join(lines, '\n');
        let t = j + seq!['\n'];
        assert(t.drop_last() =~= j);
        let parts = split_on(t, '\n');
        assert(parts == lines.push(Seq::<char>::empty()));
        assert(parts.drop_last() =~= lines);
        assert(parts.drop_last().map_values(|p: Seq<char>| strip_cr(p)) =~= lines);
    }
}

/// The lowercase mapping of a text as `str::to_lowercase` performs it (Unicode
/// lowercase, context-dependent for final sigma).
pub uninterp spec fn lowercase_of(s: Seq<char>) -> Seq<char>;

/// The text in Unicode lowercase, by calling `str::to_lowercase`. Trusted: its
/// contract claims only that the result is `lowercase_of` of the argument, a
/// function of the argument alone; the Unicode case tables (and the final-sigma
/// rule) are left unsaid.
#[verifier::external_body]
pub fn to_lowercase(s: &str) -> (lower: String)
    ensures
        lower@ == lowercase_of(s@),
{
    s.to_lowercase()
}

/// The character code of `c` with ASCII capitals folded to small letters.
pub open spec fn ascii_fold(c: char) -> int {
    if 'A' <= c && c <= 'Z' {
        (c as u32) + 32
    } else {
        (c as u32) as int
    }
}

/// `a` and `b` are equal when ASCII letter case is ignored (`str::eq_ignore_ascii_case`).
pub open spec fn same_ignoring_ascii_case(a: Seq<char>, b: Seq<char>) -> bool {
    a.len() == b.len() && forall|i: int| 0 <= i < a.len() ==> ascii_fold(a[i]) == ascii_fold(
        #[trigger] b[i],
    )
}

/// Two characters fold alike exactly when they are equal or are the capital and
/// small form of the same ASCII letter; no other character is affected.
pub proof fn lemma_ascii_fold(c: char, d: char)
    ensures
        ascii_fold(c) == ascii_fold(d) <==> (c == d || ('A' <= c && c <= 'Z' && (c as u32) + 32 == (
        d as u32)) || ('A' <= d && d <= 'Z' && (d as u32) + 32 == (c as u32))),
{
    vstd::utf8::char_u32_cast(c, c as u32);
    vstd::utf8::char_u32_cast(d, d as u32);
    if (c as u32) == (d as u32) {
        assert(((c as u32) as char) == ((d as u32) as char));
    }
}

/// Compares two texts ignoring ASCII letter case.
pub fn eq_ignore_ascii_case(a: &Vec<char>, b: &Vec<char>) -> (same: bool)
    ensures
        same == same_ignoring_ascii_case(a@, b@),
{
    if a.len() != b.len() {
        return false;
    }
    for i in 0..a.len()
        invariant
            a@.len() == b@.len(),
            forall|j: int| 0 <= j < i ==> ascii_fold(a@[j]) == ascii_fold(#[trigger] b@[j]),
    {
        let x = a[i];
        let y = b[i];
        let fx: u32 = if 'A' <= x && x <= 'Z' {
            x as u32 + 32
        } else {
            x as u32
        };
        let fy: u32 = if 'A' <= y && y <= 'Z' {
            y as u32 + 32
        } else {
            y as u32
        };
        if fx != fy {
            return false;
        }
    }
    true
}

/// `needle` occurs in `hay` as a run of consecutive characters.
pub open spec fn occurs_in(hay: Seq<char>, needle: Seq<char>) -> bool {
    exists|i: int| 0 <= i <= hay.len() - needle.len() && #[trigger] hay.subrange(i, i + needle.len()) == needle
}

/// Tests whether `needle` occurs in `hay` (`str::contains` with a string pattern).
pub fn contains_chars(hay: &Vec<char>, needle: &Vec<char>) -> (found: bool)
    ensures
        found == occurs_in(hay@, needle@),
{
    let n = needle.len();
    let h = hay.len();
    if n > h {
        return false;
    }
    let mut i: usize = 0;
    while i <= h - n
        invariant
            n == needle@.len(),
            h == hay@.len(),
            n <= h,
            i <= h - n + 1,
            forall|j: int| 0 <= j < i ==> #[trigger] hay@.subrange(j, j + n) != needle@,
        decreases h - n + 1 - i,
    {
        let mut k: usize = 0;
        let mut same = true;
        while k < n
            invariant
                n == needle@.len(),
                h == hay@.len(),
                i + n <= h,
                k <= n,
                same == (forall|q: int| 0 <= q < k ==> hay@[i + q] == needle@[q]),
            decreases n - k,
        {
            if hay[i + k] != needle[k] {
                same = false;
            }
            k = k + 1;
        }
        if same {
            assert(hay@.subrange(i as int, i + n) =~= needle@);
            return true;
        }
        assert(hay@.subrange(i as int, i + n) != needle@) by {
            let q = choose|q: int| 0 <= q < n && hay@[i + q] != needle@[q];
            assert(hay@.subrange(i as int, i + n)[q] == hay@[i + q]);
        }
        i = i + 1;
    }
    false
}

/// Compares two character vectors.
pub fn same_chars(a: &Vec<char>, b: &Vec<char>) -> (same: bool)
    ensures
        same == (a@ == b@),
{
    if a.len() != b.len() {
        return false;
    }
    for i in 0..a.len()
        invariant
            a@.len() == b@.len(),
            forall|j: int| 0 <= j < i ==> a@[j] == b@[j],
    {
        if a[i] != b[i] {
            return false;
        }
    }
    assert(a@ =~= b@);
    true
}

/// Appends a string slice to a string by calling `String::push_str`. Trusted: its
/// contract claims that the string afterwards holds its former characters followed
/// by those of `t`, as the standard library documents.
#[verifier::external_body]
pub fn push_str(s: &mut String, t: &str)
    ensures
        final(s)@ == old(s)@ + t@,
{
    s.push_str(t);
}

} // verus!
