//! Text helpers shared by the scheduler: the mathematical view of strings and
//! the few string operations its messages and diagnostics are built from.

use vstd::prelude::*;

use crate::search;

verus! {

/// The mathematical value of a string: the sequence of its characters.
pub type Text = Seq<char>;

/// The values of a list of strings.
pub open spec fn texts(list: Seq<String>) -> Seq<Text> {
    list.map_values(|s: String| s@)
}

/// The value of an optional string.
pub open spec fn opt_text(value: Option<String>) -> Option<Text> {
    match value {
        Some(s) => Some(s@),
        None => None,
    }
}

/// Copies a list of strings.
pub fn copy_texts(list: &Vec<String>) -> (copy: Vec<String>)
    ensures
        texts(copy@) == texts(list@),
{
    let copy = list.clone();
    assert(texts(copy@) =~= texts(list@));
    copy
}

/// Copies an optional string.
pub fn copy_opt_text(value: &Option<String>) -> (copy: Option<String>)
    ensures
        opt_text(copy) == opt_text(*value),
{
    match value {
        Some(s) => Some(s.clone()),
        None => None,
    }
}

/// Whether two optional strings hold the same value.
pub fn same_opt_text(a: &Option<String>, b: &Option<String>) -> (same: bool)
    ensures
        same == (opt_text(*a) == opt_text(*b)),
{
    match (a, b) {
        (Some(x), Some(y)) => *x == *y,
        (None, None) => true,
        _ => false,
    }
}

/// Whether `list` holds a string equal to `wanted`.
pub fn contains_text(list: &Vec<String>, wanted: &String) -> (found: bool)
    ensures
        found == texts(list@).contains(wanted@),
{
    let mut i: usize = 0;
    while i < list.len()
        invariant
            i <= list.len(),
            forall|j: int| 0 <= j < i ==> (#[trigger] list@[j])@ != wanted@,
        decreases list.len() - i,
    {
        if list[i] == *wanted {
            assert(texts(list@)[i as int] == wanted@);
            return true;
        }
        i += 1;
    }
    assert forall|j: int| 0 <= j < texts(list@).len() implies texts(list@)[j] != wanted@ by {
        assert(texts(list@)[j] == list@[j]@);
    }
    false
}

// ── joining ────────────────────────────────────────────────────────────────

/// The items of `parts` in order, with `separator` between neighbours.
pub open spec fn join(parts: Seq<Text>, separator: Text) -> Text
    decreases parts.len(),
{
    if parts.len() == 0 {
        Seq::empty()
    } else if parts.len() == 1 {
        parts[0]
    } else {
        join(parts.drop_last(), separator) + separator + parts.last()
    }
}

/// Joins `parts` with `separator` between neighbours.
pub fn join_texts(parts: &Vec<String>, separator: &str) -> (joined: String)
    ensures
        joined@ == join(texts(parts@), separator@),
{
    let mut joined = String::new();
    let mut i: usize = 0;
    while i < parts.len()
        invariant
            i <= parts.len(),
            joined@ == join(texts(parts@).take(i as int), separator@),
        decreases parts.len() - i,
    {
        let ghost grown = texts(parts@).take(i + 1);
        assert(grown.drop_last() =~= texts(parts@).take(i as int));
        assert(grown.last() == parts@[i as int]@);
        if i == 0 {
            joined = parts[i].clone();
            assert(grown.len() == 1);
        } else {
            joined.append(separator);
            joined.append(parts[i].as_str());
        }
        i += 1;
    }
    assert(texts(parts@).take(parts@.len() as int) =~= texts(parts@));
    joined
}

// ── numbers ────────────────────────────────────────────────────────────────

/// The character of a decimal digit.
pub open spec fn digit_char(digit: nat) -> char {
    if digit == 0 {
        '0'
    } else if digit == 1 {
        '1'
    } else if digit == 2 {
        '2'
    } else if digit == 3 {
        '3'
    } else if digit == 4 {
        '4'
    } else if digit == 5 {
        '5'
    } else if digit == 6 {
        '6'
    } else if digit == 7 {
        '7'
    } else if digit == 8 {
        '8'
    } else {
        '9'
    }
}

/// The decimal notation of a natural number, without leading zeros.
pub open spec fn decimal(n: nat) -> Text
    decreases n,
{
    if n < 10 {
        seq![digit_char(n)]
    } else {
        decimal(n / 10).push(digit_char(n % 10))
    }
}

/// The decimal notation of an integer, with a leading minus sign below zero.
pub open spec fn signed_decimal(n: int) -> Text {
    if n < 0 {
        seq!['-'] + decimal((-n) as nat)
    } else {
        decimal(n as nat)
    }
}

fn digit_text(digit: u64) -> (out: &'static str)
    requires
        digit < 10,
    ensures
        out@ == seq![digit_char(digit as nat)],
{
    proof {
        reveal_strlit("0");
        reveal_strlit("1");
        reveal_strlit("2");
        reveal_strlit("3");
        reveal_strlit("4");
        reveal_strlit("5");
        reveal_strlit("6");
        reveal_strlit("7");
        reveal_strlit("8");
        reveal_strlit("9");
    }
    let out = if digit == 0 {
        "0"
    } else if digit == 1 {
        "1"
    } else if digit == 2 {
        "2"
    } else if digit == 3 {
        "3"
    } else if digit == 4 {
        "4"
    } else if digit == 5 {
        "5"
    } else if digit == 6 {
        "6"
    } else if digit == 7 {
        "7"
    } else if digit == 8 {
        "8"
    } else {
        "9"
    };
    assert(out@ =~= seq![digit_char(digit as nat)]);
    out
}

/// Writes `n` in decimal notation.
pub fn decimal_text(n: u64) -> (out: String)
    ensures
        out@ == decimal(n as nat),
    decreases n,
{
    if n < 10 {
        digit_text(n).to_string()
    } else {
        let mut out = decimal_text(n / 10);
        out.append(digit_text(n % 10));
        assert(out@ =~= decimal(n as nat / 10).push(digit_char(n as nat % 10)));
        out
    }
}

/// Writes `n` in decimal notation, with a leading minus sign below zero.
pub fn signed_decimal_text(n: i32) -> (out: String)
    ensures
        out@ == signed_decimal(n as int),
{
    if n < 0 {
        proof {
            reveal_strlit("-");
        }
        let mut out = "-".to_string();
        let wide: i64 = n as i64;
        let magnitude: u64 = (0 - wide) as u64;
        out.append(decimal_text(magnitude).as_str());
        assert("-"@ =~= seq!['-']);
        out
    } else {
        decimal_text(n as u64)
    }
}

// ── searching ──────────────────────────────────────────────────────────────

/// `part` stands in `whole` at position `i`.
pub open spec fn occurs_at(part: Text, whole: Text, i: int) -> bool {
    &&& 0 <= i <= whole.len() - part.len()
    &&& whole.subrange(i, i + part.len()) == part
}

/// `part` stands somewhere in `whole`.
pub open spec fn occurs_in(part: Text, whole: Text) -> bool {
    exists|i: int| occurs_at(part, whole, i)
}

/// Whether `part` stands in `whole` at position `i`.
pub fn part_at(whole: &Vec<char>, part: &Vec<char>, i: usize) -> (found: bool)
    requires
        i <= whole.len(),
    ensures
        found == occurs_at(part@, whole@, i as int),
{
    if part.len() > whole.len() - i {
        return false;
    }
    let mut k: usize = 0;
    while k < part.len()
        invariant
            i <= whole.len(),
            part.len() <= whole.len() - i,
            k <= part.len(),
            forall|m: int| 0 <= m < k ==> part@[m] == whole@[i + m],
        decreases part.len() - k,
    {
        if part[k] != whole[i + k] {
            assert(whole@.subrange(i as int, i + part@.len())[k as int] != part@[k as int]);
            return false;
        }
        k += 1;
    }
    assert(whole@.subrange(i as int, i + part@.len()) =~= part@);
    true
}

/// Whether `part` stands somewhere in `whole`.
pub fn contains_part(whole: &str, part: &str) -> (found: bool)
    ensures
        found == occurs_in(part@, whole@),
{
    let hay = chars_of(whole);
    let needle = chars_of(part);
    let mut i: usize = 0;
    while i < hay.len()
        invariant
            hay@ == whole@,
            needle@ == part@,
            i <= hay.len(),
            forall|j: int| 0 <= j < i ==> !occurs_at(part@, whole@, j),
        decreases hay.len() - i,
    {
        if part_at(&hay, &needle, i) {
            return true;
        }
        i += 1;
    }
    part_at(&hay, &needle, i)
}

// ── white space and lines ──────────────────────────────────────────────────

/// The characters with the Unicode property `White_Space`.
pub open spec fn is_space(c: char) -> bool {
    let n = c as u32;
    9 <= n <= 13 || n == 0x20 || n == 0x85 || n == 0xa0 || n == 0x1680 || 0x2000 <= n <= 0x200a || n
        == 0x2028 || n == 0x2029 || n == 0x202f || n == 0x205f || n == 0x3000
}

/// Whether a character has the Unicode property `White_Space`.
pub fn is_space_char(c: char) -> (space: bool)
    ensures
        space == is_space(c),
{
    let n: u32 = c as u32;
    (9 <= n && n <= 13) || n == 0x20 || n == 0x85 || n == 0xa0 || n == 0x1680 || (0x2000 <= n && n
        <= 0x200a) || n == 0x2028 || n == 0x2029 || n == 0x202f || n == 0x205f || n == 0x3000
}

/// The text without white space at its start.
pub open spec fn trim_start(s: Text) -> Text
    decreases s.len(),
{
    if s.len() > 0 && is_space(s[0]) {
        trim_start(s.drop_first())
    } else {
        s
    }
}

/// The text without white space at its end.
pub open spec fn trim_end(s: Text) -> Text
    decreases s.len(),
{
    if s.len() > 0 && is_space(s.last()) {
        trim_end(s.drop_last())
    } else {
        s
    }
}

/// The text without white space at its start and end.
pub open spec fn trim(s: Text) -> Text {
    trim_end(trim_start(s))
}

/// Removes white space at the start.
pub fn trim_start_text(s: &str) -> (out: &str)
    ensures
        out@ == trim_start(s@),
{
    let chars = chars_of(s);
    let mut i: usize = 0;
    assert(s@.skip(0) =~= s@);
    while i < chars.len() && is_space_char(chars[i])
        invariant
            chars@ == s@,
            i <= chars.len(),
            trim_start(s@) == trim_start(s@.skip(i as int)),
        decreases chars.len() - i,
    {
        assert(s@.skip(i as int).drop_first() =~= s@.skip(i + 1));
        i += 1;
    }
    assert(s@.skip(i as int) =~= s@.subrange(i as int, s@.len() as int));
    s.substring_char(i, chars.len())
}

/// Removes white space at the end.
pub fn trim_end_text(s: &str) -> (out: &str)
    ensures
        out@ == trim_end(s@),
{
    let chars = chars_of(s);
    let mut i: usize = chars.len();
    assert(s@.take(s@.len() as int) =~= s@);
    while i > 0 && is_space_char(chars[i - 1])
        invariant
            chars@ == s@,
            i <= chars.len(),
            trim_end(s@) == trim_end(s@.take(i as int)),
        decreases i,
    {
        assert(s@.take(i as int).drop_last() =~= s@.take(i - 1));
        i -= 1;
    }
    assert(s@.take(i as int) =~= s@.subrange(0, i as int));
    s.substring_char(0, i)
}

/// Removes white space at the start and end.
pub fn trim_text(s: &str) -> (out: &str)
    ensures
        out@ == trim(s@),
{
    trim_end_text(trim_start_text(s))
}

/// The position, if a line feed stands there.
pub open spec fn newline_check(s: Text) -> spec_fn(int) -> Option<int> {
    |i: int|
        if s[i] == '\n' {
            Some(i)
        } else {
            None
        }
}

/// The first line feed.
pub open spec fn first_newline(s: Text) -> Option<int> {
    search::first_some(s.len(), newline_check(s))
}

/// A line without the carriage return that belongs to its line end.
pub open spec fn without_return(line: Text) -> Text {
    if line.len() > 0 && line.last() == '\r' {
        line.drop_last()
    } else {
        line
    }
}

/// The lines of a text. A line ends with a line feed, which a carriage return
/// may precede; the last line need not end.
pub open spec fn lines(s: Text) -> Seq<Text>
    decreases s.len(),
{
    if s.len() == 0 {
        Seq::empty()
    } else {
        match first_newline(s) {
            Some(p) => if 0 <= p < s.len() {
                seq![without_return(s.take(p))] + lines(s.skip(p + 1))
            } else {
                Seq::empty()
            },
            None => seq![s],
        }
    }
}

fn find_newline(chars: &Vec<char>) -> (position: Option<usize>)
    ensures
        match position {
            Some(p) => p < chars@.len() && first_newline(chars@) == Some(p as int),
            None => first_newline(chars@) is None,
        },
{
    let mut i: usize = 0;
    while i < chars.len()
        invariant
            i <= chars.len(),
            search::first_some(i as nat, newline_check(chars@)) is None,
        decreases chars.len() - i,
    {
        if chars[i] == '\n' {
            proof {
                search::lemma_first_some_extends(
                    (i + 1) as nat,
                    chars@.len(),
                    newline_check(chars@),
                );
            }
            return Some(i);
        }
        i += 1;
    }
    None
}

/// Splits a text into its lines.
pub fn lines_of(s: &str) -> (out: Vec<String>)
    ensures
        texts(out@) == lines(s@),
{
    let mut out: Vec<String> = Vec::new();
    let mut rest: &str = s;
    let mut left: usize = chars_of(s).len();
    assert(texts(out@) + lines(rest@) =~= lines(s@));
    while left > 0
        invariant
            left == rest@.len(),
            lines(s@) == texts(out@) + lines(rest@),
        decreases left,
    {
        let chars = chars_of(rest);
        let ghost written = texts(out@);
        let ghost whole = rest@;
        match find_newline(&chars) {
            Some(p) => {
                let mut end: usize = p;
                if end > 0 && chars[end - 1] == '\r' {
                    end -= 1;
                }
                let line = rest.substring_char(0, end).to_string();
                proof {
                    if p > 0 && whole[p - 1] == '\r' {
                        assert(whole.take(p as int).last() == '\r');
                        assert(line@ =~= whole.take(p as int).drop_last());
                    } else {
                        assert(line@ =~= whole.take(p as int));
                    }
                    assert(line@ == without_return(whole.take(p as int)));
                }
                out.push(line);
                rest = rest.substring_char(p + 1, chars.len());
                left = chars.len() - p - 1;
                proof {
                    assert(rest@ =~= whole.skip(p + 1));
                    assert(texts(out@) =~= written.push(line@));
                    assert(texts(out@) + lines(rest@) =~= written + (seq![line@] + lines(rest@)));
                }
            },
            None => {
                out.push(rest.to_string());
                rest = "";
                left = 0;
                proof {
                    reveal_strlit("");
                    assert(texts(out@) =~= written.push(whole));
                    assert(texts(out@) + lines(rest@) =~= written + seq![whole]);
                }
            },
        }
    }
    assert(texts(out@) + lines(rest@) =~= texts(out@));
    out
}

// ── ordering ───────────────────────────────────────────────────────────────

/// Lexicographic order on characters.
pub open spec fn text_before(a: Text, b: Text) -> bool
    decreases a.len(),
{
    if b.len() == 0 {
        false
    } else if a.len() == 0 {
        true
    } else if a[0] == b[0] {
        text_before(a.drop_first(), b.drop_first())
    } else {
        (a[0] as int) < (b[0] as int)
    }
}

/// The characters of `s` in order.
pub fn chars_of(s: &str) -> (chars: Vec<char>)
    ensures
        chars@ == s@,
{
    let mut chars: Vec<char> = Vec::new();
    for c in it: s.chars()
        invariant
            it.seq() == s@,
            chars@ == s@.take(it.index()),
    {
        assert(s@.take(it.index() + 1) =~= s@.take(it.index()).push(c));
        chars.push(c);
    }
    assert(s@.take(s@.len() as int) =~= s@);
    chars
}

/// Whether `a` comes strictly before `b` in lexicographic order.
pub fn is_text_before(a: &String, b: &String) -> (before: bool)
    ensures
        before == text_before(a@, b@),
{
    let left = chars_of(a.as_str());
    let right = chars_of(b.as_str());
    let mut i: usize = 0;
    assert(a@.skip(0) =~= a@);
    assert(b@.skip(0) =~= b@);
    while i < left.len() && i < right.len()
        invariant
            left@ == a@,
            right@ == b@,
            i <= left.len(),
            i <= right.len(),
            text_before(a@, b@) == text_before(a@.skip(i as int), b@.skip(i as int)),
        decreases left.len() - i,
    {
        let l: char = left[i];
        let r: char = right[i];
        if l != r {
            return l < r;
        }
        assert(a@.skip(i as int).drop_first() =~= a@.skip(i + 1));
        assert(b@.skip(i as int).drop_first() =~= b@.skip(i + 1));
        i += 1;
    }
    i < right.len()
}

/// Nothing comes before itself.
pub proof fn lemma_text_before_irreflexive(a: Text)
    ensures
        !text_before(a, a),
    decreases a.len(),
{
    if a.len() > 0 {
        lemma_text_before_irreflexive(a.drop_first());
    }
}

/// Two different texts are ordered one way or the other.
pub proof fn lemma_text_before_total(a: Text, b: Text)
    requires
        a != b,
    ensures
        text_before(a, b) || text_before(b, a),
    decreases a.len(),
{
    if a.len() > 0 && b.len() > 0 && a[0] == b[0] {
        if a.drop_first() == b.drop_first() {
            assert(a =~= seq![a[0]] + a.drop_first());
            assert(b =~= seq![b[0]] + b.drop_first());
        }
        lemma_text_before_total(a.drop_first(), b.drop_first());
    } else if a.len() == 0 && b.len() == 0 {
        assert(a =~= b);
    }
}

/// The order is transitive.
pub proof fn lemma_text_before_transitive(a: Text, b: Text, c: Text)
    requires
        text_before(a, b),
        text_before(b, c),
    ensures
        text_before(a, c),
    decreases a.len(),
{
    if a.len() > 0 && a[0] == b[0] && b[0] == c[0] {
        lemma_text_before_transitive(a.drop_first(), b.drop_first(), c.drop_first());
    }
}

/// Each item comes strictly before the next ones.
pub open spec fn strictly_sorted(list: Seq<Text>) -> bool {
    forall|i: int, j: int| 0 <= i < j < list.len() ==> text_before(list[i], list[j])
}

/// `list` with `item` put in its place, unless it is already there.
pub open spec fn sorted_insert(list: Seq<Text>, item: Text) -> Seq<Text>
    decreases list.len(),
{
    if list.len() == 0 {
        seq![item]
    } else if list.last() == item {
        list
    } else if text_before(list.last(), item) {
        list.push(item)
    } else {
        sorted_insert(list.drop_last(), item).push(list.last())
    }
}

/// The items of `items` in lexicographic order, each once.
pub open spec fn sorted_distinct(items: Seq<Text>) -> Seq<Text>
    decreases items.len(),
{
    if items.len() == 0 {
        Seq::empty()
    } else {
        sorted_insert(sorted_distinct(items.drop_last()), items.last())
    }
}

proof fn lemma_sorted_insert(list: Seq<Text>, item: Text)
    requires
        strictly_sorted(list),
    ensures
        strictly_sorted(sorted_insert(list, item)),
        forall|x: Text| #[trigger]
            sorted_insert(list, item).contains(x) <==> (list.contains(x) || x == item),
    decreases list.len(),
{
    let out = sorted_insert(list, item);
    if list.len() == 0 {
        assert(out[0] == item);
    } else if list.last() == item {
        assert(list[list.len() - 1] == item);
    } else if text_before(list.last(), item) {
        assert forall|i: int, j: int| 0 <= i < j < out.len() implies text_before(out[i], out[j]) by {
            if j == list.len() && i < list.len() - 1 {
                lemma_text_before_transitive(list[i], list.last(), item);
            }
        }
        assert forall|x: Text| out.contains(x) <==> (list.contains(x) || x == item) by {
            if list.contains(x) {
                let k = choose|k: int| 0 <= k < list.len() && list[k] == x;
                assert(out[k] == x);
            }
            assert(out[list.len() as int] == item);
        }
    } else {
        let front = list.drop_last();
        let inner = sorted_insert(front, item);
        lemma_sorted_insert(front, item);
        lemma_text_before_total(list.last(), item);
        assert forall|x: Text| inner.contains(x) implies text_before(x, list.last()) by {
            if front.contains(x) {
                let k = choose|k: int| 0 <= k < front.len() && front[k] == x;
                assert(list[k] == x);
            }
        }
        assert forall|i: int, j: int| 0 <= i < j < out.len() implies text_before(out[i], out[j]) by {
            if j == inner.len() {
                assert(inner.contains(inner[i]));
            }
        }
        assert(inner.contains(item));
        assert forall|x: Text| out.contains(x) <==> (list.contains(x) || x == item) by {
            if list.contains(x) {
                let k = choose|k: int| 0 <= k < list.len() && list[k] == x;
                if k < front.len() {
                    assert(front[k] == x);
                    assert(front.contains(x));
                    assert(inner.contains(x));
                } else {
                    assert(out[inner.len() as int] == x);
                }
            }
            if inner.contains(x) {
                let k = choose|k: int| 0 <= k < inner.len() && inner[k] == x;
                assert(out[k] == x);
            }
            if out.contains(x) {
                let k = choose|k: int| 0 <= k < out.len() && out[k] == x;
                if k < inner.len() {
                    assert(inner[k] == x);
                    if front.contains(x) {
                        let m = choose|m: int| 0 <= m < front.len() && front[m] == x;
                        assert(list[m] == x);
                    }
                } else {
                    assert(list[list.len() - 1] == x);
                }
            }
        }
    }
}

/// `sorted_distinct` is strictly sorted and holds exactly the given items.
pub proof fn lemma_sorted_distinct(items: Seq<Text>)
    ensures
        strictly_sorted(sorted_distinct(items)),
        forall|x: Text| #[trigger] sorted_distinct(items).contains(x) <==> items.contains(x),
    decreases items.len(),
{
    if items.len() > 0 {
        let front = items.drop_last();
        lemma_sorted_distinct(front);
        lemma_sorted_insert(sorted_distinct(front), items.last());
        assert forall|x: Text| items.contains(x) <==> (front.contains(x) || x == items.last()) by {
            if items.contains(x) {
                let k = choose|k: int| 0 <= k < items.len() && items[k] == x;
                if k < front.len() {
                    assert(front[k] == x);
                }
            }
            if front.contains(x) {
                let k = choose|k: int| 0 <= k < front.len() && front[k] == x;
                assert(items[k] == x);
            }
            assert(items[items.len() - 1] == items.last());
        }
    }
}

proof fn lemma_sorted_insert_split(list: Seq<Text>, item: Text, k: int)
    requires
        0 <= k <= list.len(),
        forall|j: int| k <= j < list.len() ==> list[j] != item && !text_before(list[j], item),
    ensures
        sorted_insert(list, item) == sorted_insert(list.take(k), item) + list.skip(k),
    decreases list.len(),
{
    if k == list.len() {
        assert(list.take(k) =~= list);
        assert(sorted_insert(list, item) =~= sorted_insert(list.take(k), item) + list.skip(k));
    } else {
        let front = list.drop_last();
        lemma_sorted_insert_split(front, item, k);
        assert(front.take(k) =~= list.take(k));
        assert(front.skip(k).push(list.last()) =~= list.skip(k));
        assert(sorted_insert(list, item) =~= sorted_insert(list.take(k), item) + list.skip(k));
    }
}

/// Puts `item` in its place in `list`, unless it is already there.
pub fn insert_sorted(list: &mut Vec<String>, item: String)
    ensures
        texts(final(list)@) == sorted_insert(texts(old(list)@), item@),
{
    let ghost before = texts(list@);
    let mut k: usize = list.len();
    while k > 0 && list[k - 1] != item && !is_text_before(&list[k - 1], &item)
        invariant
            k <= list.len(),
            before == texts(list@),
            forall|j: int|
                k <= j < before.len() ==> before[j] != item@ && !text_before(before[j], item@),
        decreases k,
    {
        assert(before[k - 1] == list@[k - 1]@);
        k -= 1;
    }
    proof {
        lemma_sorted_insert_split(before, item@, k as int);
        if k > 0 {
            assert(before.take(k as int).last() == list@[k - 1]@);
        }
    }
    if k > 0 && list[k - 1] == item {
        assert(before.take(k as int) + before.skip(k as int) =~= before);
        return;
    }
    let ghost item_text = item@;
    list.insert(k, item);
    proof {
        let front = before.take(k as int);
        if k == 0 {
            assert(sorted_insert(front, item_text) =~= seq![item_text]);
        } else {
            assert(sorted_insert(front, item_text) =~= front.push(item_text));
        }
        assert(texts(list@) =~= sorted_insert(front, item_text) + before.skip(k as int));
    }
}

} // verus!
