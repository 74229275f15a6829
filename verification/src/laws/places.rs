//! Places in files that a command's output names.

use vstd::prelude::*;

use crate::laws::wording;
use crate::text;
use crate::text::Text;
use crate::validation;

verus! {

/// A digit.
pub open spec fn is_digit(c: char) -> bool {
    '0' <= c <= '9'
}

/// The text is a place in a file: something that is more than a number, a
/// colon, and a number behind it.
pub open spec fn is_place(s: Text) -> bool {
    exists|p: int|
        0 <= p < s.len() - 1 && #[trigger] s[p] == ':' && (forall|i: int|
            p < i < s.len() ==> is_digit(#[trigger] s[i])) && (exists|i: int|
            0 <= i < p && !is_digit(#[trigger] s[i]))
}

/// The first word of a text stands from `i` up to `j`; without the colons at
/// its end, up to `k`.
pub open spec fn is_bare_word(s: Text, i: int, k: int, j: int) -> bool {
    &&& 0 <= i <= k <= j <= s.len()
    &&& i < j
    &&& forall|x: int| 0 <= x < i ==> wording::is_blank(#[trigger] s[x])
    &&& forall|x: int| i <= x < j ==> !wording::is_blank(#[trigger] s[x])
    &&& j < s.len() ==> wording::is_blank(s[j])
    &&& forall|x: int| k <= x < j ==> #[trigger] s[x] == ':'
    &&& k > i ==> s[k - 1] != ':'
}

proof fn lemma_leading_word(s: Text) -> (j: int)
    ensures
        0 <= j <= s.len(),
        validation::leading_word(s) == s.take(j),
        forall|x: int| 0 <= x < j ==> !wording::is_blank(#[trigger] s[x]),
        j < s.len() ==> wording::is_blank(s[j]),
    decreases s.len(),
{
    if s.len() == 0 || text::is_space(s[0]) {
        assert(s.take(0) =~= Seq::<char>::empty());
        0
    } else {
        let rest = s.drop_first();
        let j = lemma_leading_word(rest);
        assert(seq![s[0]] + rest.take(j) =~= s.take(j + 1));
        assert forall|x: int| 0 <= x < j + 1 implies !wording::is_blank(#[trigger] s[x]) by {
            if x > 0 {
                assert(rest[x - 1] == s[x]);
            }
        }
        if j < rest.len() {
            assert(rest[j] == s[j + 1]);
        }
        j + 1
    }
}

proof fn lemma_trim_colons(s: Text) -> (k: int)
    ensures
        0 <= k <= s.len(),
        validation::trim_colons(s) == s.take(k),
        forall|x: int| k <= x < s.len() ==> #[trigger] s[x] == ':',
        k > 0 ==> s[k - 1] != ':',
    decreases s.len(),
{
    if s.len() > 0 && s.last() == ':' {
        let k = lemma_trim_colons(s.drop_last());
        assert(s.drop_last().take(k) =~= s.take(k));
        assert forall|x: int| k <= x < s.len() implies #[trigger] s[x] == ':' by {
            if x < s.len() - 1 {
                assert(s.drop_last()[x] == s[x]);
            }
        }
        k
    } else {
        assert(s.take(s.len() as int) =~= s);
        s.len() as int
    }
}

proof fn lemma_last_colon(s: Text)
    ensures
        match validation::last_colon(s) {
            Some(p) => 0 <= p < s.len() && s[p] == ':' && forall|x: int|
                p < x < s.len() ==> #[trigger] s[x] != ':',
            None => forall|x: int| 0 <= x < s.len() ==> #[trigger] s[x] != ':',
        },
    decreases s.len(),
{
    if s.len() > 0 && s.last() != ':' {
        lemma_last_colon(s.drop_last());
        assert forall|x: int| 0 <= x < s.len() - 1 implies #[trigger] s[x] == s.drop_last()[x] by {}
        if let Some(p) = validation::last_colon(s) {
            assert(s.drop_last()[p] == s[p]);
        }
    }
}

proof fn lemma_bare_word(s: Text) -> (w: (int, int, int))
    requires
        wording::says_something(s),
    ensures
        is_bare_word(s, w.0, w.1, w.2),
        validation::trim_colons(validation::first_word(s)) == s.subrange(w.0, w.1),
{
    let i = wording::lemma_trim_start(s);
    let rest = s.skip(i);
    let q = choose|q: int| 0 <= q < s.len() && !wording::is_blank(#[trigger] s[q]);
    assert(i <= q);
    let j = lemma_leading_word(rest);
    assert(rest[0] == s[i]);
    assert(j > 0);
    let word = rest.take(j);
    let k = lemma_trim_colons(word);
    assert(word.take(k) =~= s.subrange(i, i + k));
    assert forall|x: int| i <= x < i + j implies !wording::is_blank(#[trigger] s[x]) by {
        assert(rest[x - i] == s[x]);
    }
    if j < rest.len() {
        assert(rest[j] == s[i + j]);
    }
    assert forall|x: int| i + k <= x < i + j implies #[trigger] s[x] == ':' by {
        assert(word[x - i] == s[x]);
    }
    if k > 0 {
        assert(word[k - 1] == s[i + k - 1]);
    }
    (i, i + k, i + j)
}

/// A line starts with a place exactly where its first word is one, not counting
/// colons at the end of the word.
pub proof fn law_lines_start_with_places(line: Text) -> (w: (int, int, int))
    requires
        wording::says_something(line),
    ensures
        is_bare_word(line, w.0, w.1, w.2),
        validation::is_location(line) == is_place(line.subrange(w.0, w.1)),
{
    let w = lemma_bare_word(line);
    let c = line.subrange(w.0, w.1);
    assert(c.len() > 0 ==> c.last() == line[w.1 - 1]);
    lemma_last_colon(c);
    match validation::last_colon(c) {
        None => {
            if is_place(c) {
                let p = choose|p: int|
                    0 <= p < c.len() - 1 && #[trigger] c[p] == ':' && (forall|i: int|
                        p < i < c.len() ==> is_digit(#[trigger] c[i])) && (exists|i: int|
                        0 <= i < p && !is_digit(#[trigger] c[i]));
                assert(c[p] != ':');
            }
        },
        Some(p) => {
            let head = c.take(p);
            let tail = c.skip(p + 1);
            lemma_last_colon(head);
            assert(p < c.len() - 1);
            if validation::is_location(line) {
                assert forall|i: int| p < i < c.len() implies is_digit(#[trigger] c[i]) by {
                    assert(tail[i - p - 1] == c[i]);
                }
                match validation::last_colon(head) {
                    Some(q) => {
                        assert(head[q] == c[q]);
                        assert(!is_digit(c[q]));
                    },
                    None => {
                        assert(!validation::all_digits(head));
                        let i = choose|i: int|
                            0 <= i < head.len() && !('0' <= #[trigger] head[i] <= '9');
                        assert(head[i] == c[i]);
                        assert(!is_digit(c[i]));
                    },
                }
                assert(c[p] == ':');
                assert(is_place(c));
            }
            if is_place(c) {
                let r = choose|r: int|
                    0 <= r < c.len() - 1 && #[trigger] c[r] == ':' && (forall|i: int|
                        r < i < c.len() ==> is_digit(#[trigger] c[i])) && (exists|i: int|
                        0 <= i < r && !is_digit(#[trigger] c[i]));
                assert(r <= p);
                if r < p {
                    assert(is_digit(c[p]));
                }
                assert forall|i: int| 0 <= i < tail.len() implies '0' <= #[trigger] tail[i]
                    <= '9' by {
                    assert(tail[i] == c[i + p + 1]);
                    assert(is_digit(c[i + p + 1]));
                }
                let i = choose|i: int| 0 <= i < r && !is_digit(#[trigger] c[i]);
                assert(head[i] == c[i]);
                match validation::last_colon(head) {
                    Some(q) => {
                        if head.skip(q + 1).len() == 0 {
                            assert(validation::all_digits(head.skip(q + 1)));
                        }
                    },
                    None => {
                        assert(!validation::all_digits(head));
                    },
                }
            }
        },
    }
    w
}

/// A text starts with another.
pub open spec fn begins_with(s: Text, start: Text) -> bool {
    s.len() >= start.len() && s.take(start.len() as int) == start
}

/// What a line says behind an arrow, if it starts with one.
pub open spec fn behind_arrow(line: Text) -> Text {
    if begins_with(line, "-->"@) {
        text::trim(line.skip(3))
    } else {
        line
    }
}

/// A line names the place that it starts with, or that stands behind an arrow
/// at its start. One that quotes a file is told whole. No other names a place.
pub proof fn law_lines_name_places(line: Text)
    requires
        wording::says_something(line),
    ensures
        ({
            let told = validation::location_in(line);
            let shown = text::trim(line);
            let rest = behind_arrow(shown);
            let placed = exists|i: int, k: int, j: int|
                #[trigger] is_bare_word(rest, i, k, j) && is_place(rest.subrange(i, k));
            if placed {
                told matches Some(place) && exists|i: int, k: int, j: int|
                    #[trigger] is_bare_word(rest, i, k, j) && place == rest.subrange(i, k)
            } else if begins_with(shown, "File \""@) {
                told == Some(shown)
            } else {
                told is None
            }
        }),
{
    reveal_strlit("-->");
    reveal_strlit("File \"");
    let shown = text::trim(line);
    let rest = behind_arrow(shown);
    assert(shown.len() >= 3 ==> shown.subrange(0, 3) =~= shown.take(3));
    assert(shown.len() >= 6 ==> shown.subrange(0, 6) =~= shown.take(6));
    if wording::says_something(rest) {
        let w = law_lines_start_with_places(rest);
        let v = lemma_bare_word(rest);
        lemma_one_word(rest, w, v);
        assert forall|i: int, k: int, j: int| #[trigger]
            is_bare_word(rest, i, k, j) implies i == w.0 && k == w.1 by {
            lemma_one_word(rest, (i, k, j), w);
        }
    } else {
        lemma_blank_names_nothing(rest);
        assert forall|i: int, k: int, j: int| !(#[trigger] is_bare_word(rest, i, k, j)) by {
            if is_bare_word(rest, i, k, j) {
                assert(!wording::is_blank(rest[i]));
            }
        }
    }
}

proof fn lemma_one_word(s: Text, a: (int, int, int), b: (int, int, int))
    requires
        is_bare_word(s, a.0, a.1, a.2),
        is_bare_word(s, b.0, b.1, b.2),
    ensures
        a == b,
{
    assert(!wording::is_blank(s[a.0]));
    assert(!wording::is_blank(s[b.0]));
    assert(a.0 == b.0);
    if a.2 < b.2 {
        assert(!wording::is_blank(s[a.2]));
    }
    if b.2 < a.2 {
        assert(!wording::is_blank(s[b.2]));
    }
    if a.1 < b.1 {
        assert(s[b.1 - 1] == ':');
    }
    if b.1 < a.1 {
        assert(s[a.1 - 1] == ':');
    }
}

proof fn lemma_blank_names_nothing(s: Text)
    requires
        !wording::says_something(s),
    ensures
        !validation::is_location(s),
{
    let i = wording::lemma_trim_start(s);
    if i < s.len() {
        assert(!wording::is_blank(s[i]));
    }
    let k = lemma_trim_colons(s);
    let c = validation::trim_colons(s);
    lemma_last_colon(c);
    if let Some(p) = validation::last_colon(c) {
        assert(s[p] == ':');
        assert(wording::is_blank(s[p]));
    }
}

} // verus!
