//! What texts say: how they are taken apart, put together and cut short.

use vstd::prelude::*;

use crate::failure;
use crate::failure::ReasonView;
use crate::language;
use crate::laws::plain;
use crate::recovery;
use crate::search;
use crate::teams::{LanguageView, RuleView};
use crate::text;
use crate::text::Text;
use crate::validation;
use crate::workspace_changes;

verus! {

// ── taking apart ───────────────────────────────────────────────────────────

/// No line feed stands in the text.
pub open spec fn is_one_line(s: Text) -> bool {
    forall|i: int| 0 <= i < s.len() ==> #[trigger] s[i] != '\n'
}

/// A text is taken apart at its line feeds. Nothing has no lines; a text
/// without a line feed is one; and what stands before the first line feed is
/// the first line, without a carriage return at its end, the rest being the
/// lines of what follows.
pub proof fn law_lines_end_at_line_feeds(a: Text, b: Text)
    requires
        is_one_line(a),
    ensures
        text::lines(Seq::empty()).len() == 0,
        a.len() > 0 ==> text::lines(a) == seq![a],
        text::lines(a + seq!['\n'] + b) == seq![
            if a.len() > 0 && a.last() == '\r' {
                a.drop_last()
            } else {
                a
            },
        ] + text::lines(b),
{
    search::lemma_first_some_none(a.len(), text::newline_check(a));
    assert forall|i: int| 0 <= i < a.len() implies #[trigger] text::newline_check(a)(i) is None by {
        assert(a[i] != '\n');
    }
    let whole = a + seq!['\n'] + b;
    let check = text::newline_check(whole);
    let p = a.len();
    assert(whole[p as int] == '\n');
    search::lemma_first_some_none(p, check);
    assert forall|i: int| 0 <= i < p implies #[trigger] check(i) is None by {
        assert(whole[i] == a[i]);
    }
    assert(search::first_some((p + 1) as nat, check) == Some(p as int));
    search::lemma_first_some_extends((p + 1) as nat, whole.len(), check);
    assert(whole.take(p as int) =~= a);
    assert(whole.skip((p + 1) as int) =~= b);
}

/// White space.
pub open spec fn is_blank(c: char) -> bool {
    let n = c as u32;
    9 <= n <= 13 || n == 0x20 || n == 0x85 || n == 0xa0 || n == 0x1680 || 0x2000 <= n <= 0x200a || n
        == 0x2028 || n == 0x2029 || n == 0x202f || n == 0x205f || n == 0x3000
}

/// What is trimmed at the start.
pub proof fn lemma_trim_start(s: Text) -> (a: int)
    ensures
        0 <= a <= s.len(),
        text::trim_start(s) == s.skip(a),
        forall|i: int| 0 <= i < a ==> is_blank(#[trigger] s[i]),
        a < s.len() ==> !is_blank(s[a]),
    decreases s.len(),
{
    if s.len() > 0 && text::is_space(s[0]) {
        let rest = s.drop_first();
        let a = lemma_trim_start(rest);
        assert(rest.skip(a) =~= s.skip(a + 1));
        assert forall|i: int| 0 <= i < a + 1 implies is_blank(#[trigger] s[i]) by {
            if i > 0 {
                assert(rest[i - 1] == s[i]);
            }
        }
        if a < rest.len() {
            assert(rest[a] == s[a + 1]);
        }
        a + 1
    } else {
        assert(s.skip(0) =~= s);
        0
    }
}

proof fn lemma_trim_end(s: Text) -> (b: int)
    ensures
        0 <= b <= s.len(),
        text::trim_end(s) == s.take(b),
        forall|i: int| b <= i < s.len() ==> is_blank(#[trigger] s[i]),
        b > 0 ==> !is_blank(s[b - 1]),
    decreases s.len(),
{
    if s.len() > 0 && text::is_space(s.last()) {
        let rest = s.drop_last();
        let b = lemma_trim_end(rest);
        assert(rest.take(b) =~= s.take(b));
        assert forall|i: int| b <= i < s.len() implies is_blank(#[trigger] s[i]) by {
            if i < s.len() - 1 {
                assert(rest[i] == s[i]);
            }
        }
        b
    } else {
        assert(s.take(s.len() as int) =~= s);
        s.len() as int
    }
}

/// Trimming takes white space away at both ends, all of it and nothing else.
pub proof fn law_trimming_takes_white_space(s: Text) -> (w: (int, int))
    ensures
        0 <= w.0 <= w.1 <= s.len(),
        text::trim(s) == s.subrange(w.0, w.1),
        forall|i: int| 0 <= i < w.0 || w.1 <= i < s.len() ==> is_blank(#[trigger] s[i]),
        w.0 < w.1 ==> !is_blank(s[w.0]) && !is_blank(s[w.1 - 1]),
{
    let a = lemma_trim_start(s);
    let rest = s.skip(a);
    let b = lemma_trim_end(rest);
    assert(rest.take(b) =~= s.subrange(a, a + b));
    assert forall|i: int| 0 <= i < a || a + b <= i < s.len() implies is_blank(#[trigger] s[i]) by {
        if i >= a {
            assert(rest[i - a] == s[i]);
        }
    }
    if b > 0 {
        assert(rest[b - 1] == s[a + b - 1]);
        assert(rest[0] == s[a]);
    }
    (a, a + b)
}

// ── putting together ───────────────────────────────────────────────────────

/// Joining puts the separator between the parts and nowhere else.
pub proof fn law_joining_separates(a: Seq<Text>, b: Seq<Text>, part: Text, separator: Text)
    ensures
        text::join(Seq::empty(), separator).len() == 0,
        text::join(seq![part], separator) == part,
        a.len() > 0 && b.len() > 0 ==> text::join(a + b, separator) == text::join(a, separator)
            + separator + text::join(b, separator),
    decreases b.len(),
{
    if a.len() > 0 && b.len() > 0 {
        let whole = a + b;
        assert(whole.drop_last() =~= a + b.drop_last());
        assert(whole.last() == b.last());
        if b.len() > 1 {
            law_joining_separates(a, b.drop_last(), part, separator);
            assert(text::join(whole, separator) =~= text::join(a, separator) + separator
                + text::join(b, separator));
        } else {
            assert(a + b.drop_last() =~= a);
            assert(b[0] == b.last());
        }
    }
}

/// The number that a text of digits stands for.
pub open spec fn number(digits: Text) -> int
    decreases digits.len(),
{
    if digits.len() == 0 {
        0
    } else {
        10 * number(digits.drop_last()) + (digits.last() as int - 48)
    }
}

/// A number is written in digits that stand for it, without zeros before it.
pub proof fn law_numbers_are_written_in_digits(n: nat)
    ensures
        number(text::decimal(n)) == n,
        text::decimal(n).len() > 0,
        forall|i: int|
            0 <= i < text::decimal(n).len() ==> 48 <= #[trigger] text::decimal(n)[i] as int && text::decimal(
                n,
            )[i] as int <= 57,
        n > 0 ==> text::decimal(n)[0] != '0',
    decreases n,
{
    let t = text::decimal(n);
    if n < 10 {
        assert(t.drop_last() =~= Seq::<char>::empty());
        assert(number(t.drop_last()) == 0);
    } else {
        law_numbers_are_written_in_digits(n / 10);
        let front = text::decimal(n / 10);
        assert(t.drop_last() =~= front);
        assert forall|i: int| 0 <= i < t.len() implies 48 <= #[trigger] t[i] as int && t[i] as int
            <= 57 by {
            if i < front.len() {
                assert(t[i] == front[i]);
            }
        }
        assert(t[0] == front[0]);
    }
}

/// A number below nought is written with a minus before it, others without.
pub proof fn law_signs_are_written_before_numbers(n: int)
    ensures
        n >= 0 ==> number(text::signed_decimal(n)) == n && text::signed_decimal(n)[0] != '-',
        n < 0 ==> text::signed_decimal(n)[0] == '-' && number(text::signed_decimal(n).skip(1)) == -n,
{
    if n >= 0 {
        law_numbers_are_written_in_digits(n as nat);
        let t = text::decimal(n as nat);
        assert(48 <= t[0] as int);
    } else {
        law_numbers_are_written_in_digits((-n) as nat);
        assert(text::signed_decimal(n).skip(1) =~= text::decimal((-n) as nat));
    }
}

// ── cutting short ──────────────────────────────────────────────────────────

/// Diagnostics that are short enough are told in full. Longer ones are cut
/// after twelve lines, and after twelve hundred characters of those, and a note
/// says so.
pub proof fn law_diagnostics_are_cut_short(message: Text)
    ensures
        ({
            let all = text::lines(text::trim(message));
            let head = if all.len() > 12 {
                text::join(all.take(12), "\n"@)
            } else {
                text::join(all, "\n"@)
            };
            let told = recovery::concise(message);
            let note = "\n[diagnostics truncated]"@;
            &&& all.len() <= 12 && head.len() <= 1200 ==> told == head
            &&& all.len() > 12 || head.len() > 1200 ==> {
                &&& told.len() >= note.len()
                &&& told.skip(told.len() - note.len()) == note
                &&& told.len() - note.len() == if head.len() > 1200 {
                    1200
                } else {
                    head.len() as int
                }
                &&& forall|i: int|
                    0 <= i < told.len() - note.len() ==> #[trigger] told[i] == head[i]
            }
        }),
{
    let all = text::lines(text::trim(message));
    let head = text::join(recovery::first_items(all, 12), "\n"@);
    let told = recovery::concise(message);
    let note = "\n[diagnostics truncated]"@;
    if all.len() > 12 || head.len() > 1200 {
        assert(told.skip(told.len() - note.len()) =~= note);
    }
}

/// The line says something.
pub open spec fn says_something(line: Text) -> bool {
    exists|i: int| 0 <= i < line.len() && !is_blank(#[trigger] line[i])
}

/// What a line says is what trimming leaves of it.
pub proof fn lemma_says(line: Text)
    ensures
        says_something(line) == (text::trim(line).len() > 0),
        says_something(text::trim_end(line)) == says_something(line),
{
    lemma_trimmed_says(line);
    let b = lemma_trim_end(line);
    let cut = text::trim_end(line);
    if says_something(line) {
        let i = choose|i: int| 0 <= i < line.len() && !is_blank(#[trigger] line[i]);
        assert(i < b);
        assert(cut[i] == line[i]);
    }
    if says_something(cut) {
        let i = choose|i: int| 0 <= i < cut.len() && !is_blank(#[trigger] cut[i]);
        assert(line[i] == cut[i]);
    }
}

proof fn lemma_trimmed_says(line: Text)
    ensures
        says_something(line) == (text::trim(line).len() > 0),
{
    let (a, b) = law_trimming_takes_white_space(line);
    if a < b {
        assert(!is_blank(line[a]));
    }
    if says_something(line) {
        let i = choose|i: int| 0 <= i < line.len() && !is_blank(#[trigger] line[i]);
        assert(a <= i < b);
    }
}

/// The lines that say something are kept, all of them and in order, without
/// white space at their ends.
pub proof fn law_lines_that_say_something_are_kept(s: Text) -> (at: Seq<int>)
    ensures
        at.len() == validation::nonblank_lines(s).len(),
        forall|p: int|
            0 <= p < at.len() ==> 0 <= #[trigger] at[p] < text::lines(s).len() && says_something(
                text::lines(s)[at[p]],
            ) && validation::nonblank_lines(s)[p] == text::trim_end(text::lines(s)[at[p]]),
        forall|p: int, q: int| 0 <= p < q < at.len() ==> #[trigger] at[p] < #[trigger] at[q],
        forall|i: int|
            0 <= i < text::lines(s).len() && says_something(#[trigger] text::lines(s)[i])
                ==> at.contains(i),
{
    let all = text::lines(s);
    let ends = all.map_values(|line: Text| text::trim_end(line));
    let pred = |line: Text| text::trim(line).len() > 0;
    let at = plain::lemma_kept(ends, pred);
    assert forall|p: int| 0 <= p < at.len() implies 0 <= #[trigger] at[p] < all.len()
        && says_something(all[at[p]]) && validation::nonblank_lines(s)[p] == text::trim_end(
        all[at[p]],
    ) by {
        assert(pred(ends[at[p]]));
        lemma_says(all[at[p]]);
        lemma_trimmed_says(ends[at[p]]);
    }
    assert forall|i: int| 0 <= i < all.len() && says_something(#[trigger] all[i]) implies at.contains(
        i,
    ) by {
        lemma_says(all[i]);
        lemma_trimmed_says(ends[i]);
        assert(pred(ends[i]));
    }
    at
}

/// What a command printed is told by its errors, or by its output where it
/// printed none: at most five lines of it, the first ones.
pub proof fn law_commands_are_told_by_their_errors(stdout: Text, stderr: Text)
    ensures
        ({
            let errors = validation::nonblank_lines(stderr);
            let source = if errors.len() > 0 {
                errors
            } else {
                validation::nonblank_lines(stdout)
            };
            let told = validation::diagnostics(stdout, stderr);
            if source.len() == 0 {
                told == "(no diagnostic output)"@
            } else if source.len() <= 5 {
                told == text::join(source, "\n"@)
            } else {
                told == text::join(source.take(5), "\n"@)
            }
        }),
{
}

/// What the next attempt is told of a failed validation: the command, how it
/// ended, the first place that its errors name, and the errors themselves.
/// Without a command, the first line of the summary.
pub proof fn law_failed_validations_are_told(
    summary: Text,
    command: Text,
    exit_code: Option<i32>,
    stdout: Text,
    stderr: Text,
)
    ensures
        ({
            let told = validation::retry_message(summary, Some((command, exit_code, stdout, stderr)));
            let shown = validation::diagnostics(stdout, stderr);
            &&& text::occurs_in("command: "@ + command, told)
            &&& text::occurs_in(
                "exit code: "@ + match exit_code {
                    Some(code) => text::signed_decimal(code as int),
                    None => "none"@,
                },
                told,
            )
            &&& text::occurs_in(
                "first location: "@ + match validation::first_location(shown) {
                    Some(location) => location,
                    None => "(not detected)"@,
                },
                told,
            )
            &&& text::occurs_in("diagnostics:\n"@ + shown, told)
        }),
        text::occurs_in(
            "summary: "@ + validation::in_one_line(summary),
            validation::retry_message(summary, None),
        ),
{
    let shown = validation::diagnostics(stdout, stderr);
    let told = validation::retry_message(summary, Some((command, exit_code, stdout, stderr)));
    let code = match exit_code {
        Some(code) => text::signed_decimal(code as int),
        None => "none"@,
    };
    let place = match validation::first_location(shown) {
        Some(location) => location,
        None => "(not detected)"@,
    };
    reveal_strlit("validation failed\ncommand: ");
    reveal_strlit("command: ");
    reveal_strlit("\nexit code: ");
    reveal_strlit("exit code: ");
    reveal_strlit("\nfirst location: ");
    reveal_strlit("first location: ");
    reveal_strlit("\ndiagnostics:\n");
    reveal_strlit("diagnostics:\n");
    reveal_strlit("validation failed\nsummary: ");
    reveal_strlit("summary: ");
    let a = "command: "@ + command;
    assert(told.subrange(18, 18int + a.len()) =~= a);
    assert(text::occurs_at(a, told, 18));
    let p: int = (18 + a.len()) as int;
    let b = "exit code: "@ + code;
    assert(told.subrange(p + 1, p + 1 + b.len()) =~= b);
    assert(text::occurs_at(b, told, p + 1));
    let q: int = p + 1 + b.len();
    let c = "first location: "@ + place;
    assert(told.subrange(q + 1, q + 1 + c.len()) =~= c);
    assert(text::occurs_at(c, told, q + 1));
    let r: int = q + 1 + c.len();
    let d = "diagnostics:\n"@ + shown;
    assert(told.subrange(r + 1, r + 1 + d.len()) =~= d);
    assert(text::occurs_at(d, told, r + 1));
    let brief = validation::retry_message(summary, None);
    let e = "summary: "@ + validation::in_one_line(summary);
    assert(brief.subrange(18, 18int + e.len()) =~= e);
    assert(text::occurs_at(e, brief, 18));
}

/// A terminal failure is told whole: what halts the run and what was behind
/// it, each once where one says the other.
pub proof fn law_terminal_failures_are_told_whole(terminal: Text, behind: Text)
    ensures
        ({
            let told = failure::combined_message(terminal, behind);
            &&& text::occurs_in(terminal, told)
            &&& text::occurs_in(behind, told)
            &&& told == terminal || told == behind || told == terminal + ": "@ + behind
            &&& text::occurs_in(behind, terminal) ==> told == terminal || terminal.len() == 0
        }),
        failure::reason_message(
            (ReasonView::TerminalRecovery { terminal_message: terminal, failure_message: behind }),
        ) == failure::combined_message(terminal, behind),
{
    let told = failure::combined_message(terminal, behind);
    let both = terminal + ": "@ + behind;
    assert(text::occurs_at(terminal, terminal, 0)) by {
        assert(terminal.subrange(0, terminal.len() as int) =~= terminal);
    }
    assert(text::occurs_at(behind, behind, 0)) by {
        assert(behind.subrange(0, behind.len() as int) =~= behind);
    }
    if terminal.len() == 0 {
        assert(behind.subrange(0, 0) =~= terminal);
        assert(text::occurs_at(terminal, behind, 0));
    }
    if behind.len() == 0 {
        assert(terminal.subrange(0, 0) =~= behind);
        assert(text::occurs_at(behind, terminal, 0));
    }
    assert(both.subrange(0, terminal.len() as int) =~= terminal);
    assert(text::occurs_at(terminal, both, 0));
    let p = both.len() - behind.len();
    assert(both.subrange(p, p + behind.len()) =~= behind);
    assert(text::occurs_at(behind, both, p));
}

// ── finding the validating file ────────────────────────────────────────────

/// No placeholder stands in the text.
pub open spec fn has_no_stem(s: Text) -> bool {
    forall|i: int| !(#[trigger] text::occurs_at("{stem}"@, s, i))
}

/// The first placeholder stands behind `before`.
pub open spec fn stem_stands_behind(before: Text, whole: Text) -> bool {
    &&& text::occurs_at("{stem}"@, whole, before.len() as int)
    &&& whole.take(before.len() as int) == before
    &&& forall|i: int| 0 <= i < before.len() ==> !(#[trigger] text::occurs_at("{stem}"@, whole, i))
}

proof fn lemma_first_stem(before: Text, whole: Text)
    ensures
        stem_stands_behind(before, whole) ==> language::first_occurrence("{stem}"@, whole) == Some(
            before.len() as int,
        ),
        has_no_stem(whole) ==> language::first_occurrence("{stem}"@, whole) is None,
{
    let check = language::occurrence_check("{stem}"@, whole);
    search::lemma_first_some_none(whole.len() + 1, check);
    if stem_stands_behind(before, whole) {
        search::lemma_first_some_none(before.len(), check);
        assert forall|i: int| 0 <= i < before.len() implies #[trigger] check(i) is None by {
            assert(!text::occurs_at("{stem}"@, whole, i));
        }
        assert(search::first_some((before.len() + 1) as nat, check) == Some(before.len() as int));
        search::lemma_first_some_extends((before.len() + 1) as nat, whole.len() + 1, check);
    }
    if has_no_stem(whole) {
        assert forall|i: int| 0 <= i < whole.len() + 1 implies #[trigger] check(i) is None by {
            assert(!text::occurs_at("{stem}"@, whole, i));
        }
    }
}

/// A rule turns a path of the shape of its pattern into its target: what the
/// placeholder of the pattern stood for is put in place of each placeholder of
/// the target. A path of another shape is not its business.
pub proof fn law_rules_keep_the_stem(
    rule: RuleView,
    before: Text,
    after: Text,
    stem: Text,
    path: Text,
)
    requires
        rule.pattern == before + "{stem}"@ + after,
        stem_stands_behind(before, rule.pattern),
    ensures
        language::rule_target(rule, before + stem + after) == Some(
            language::substituted(rule.target, stem),
        ),
        (forall|s: Text| path != #[trigger] (before + s) + after) ==> language::rule_target(
            rule,
            path,
        ) is None,
{
    reveal_strlit("{stem}");
    lemma_first_stem(before, rule.pattern);
    let whole = before + stem + after;
    let p = before.len() as int;
    assert(rule.pattern.take(p) =~= before);
    assert(rule.pattern.skip(p + 6) =~= after);
    assert(whole.take(p) =~= before);
    assert(whole.skip(whole.len() - after.len()) =~= after);
    assert(whole.subrange(p, whole.len() - after.len()) =~= stem);
    if language::rule_target(rule, path) is Some {
        let s = path.subrange(p, path.len() - after.len());
        assert(path =~= path.take(p) + s + path.skip(path.len() - after.len()));
        assert(path == (before + s) + after);
    }
}

/// A rule whose pattern holds no placeholder is about that path alone, and
/// leaves nothing to put in place of the placeholders of its target.
pub proof fn law_rules_without_stems_name_one_path(rule: RuleView, path: Text)
    requires
        has_no_stem(rule.pattern),
    ensures
        language::rule_target(rule, path) == if path == rule.pattern {
            Some(language::substituted(rule.target, Seq::empty()))
        } else {
            None
        },
{
    lemma_first_stem(Seq::empty(), rule.pattern);
}

/// Placeholders are replaced one after another, and the rest stays.
pub proof fn law_every_placeholder_is_replaced(
    before: Text,
    after: Text,
    plain_text: Text,
    stem: Text,
)
    requires
        stem_stands_behind(before, before + "{stem}"@ + after),
        has_no_stem(plain_text),
    ensures
        language::substituted(before + "{stem}"@ + after, stem) == before + stem
            + language::substituted(after, stem),
        language::substituted(plain_text, stem) == plain_text,
{
    reveal_strlit("{stem}");
    let whole = before + "{stem}"@ + after;
    lemma_first_stem(before, whole);
    lemma_first_stem(Seq::empty(), plain_text);
    assert(whole.take(before.len() as int) =~= before);
    assert(whole.skip((before.len() + 6) as int) =~= after);
}

/// The path has the extension: it ends in it, behind its last dot.
pub open spec fn has_extension(path: Text, e: Text) -> bool {
    &&& path.len() > e.len()
    &&& path[path.len() - e.len() - 1] == '.'
    &&& path.skip(path.len() - e.len()) == e
    &&& forall|i: int| 0 <= i < e.len() ==> #[trigger] e[i] != '.'
}

proof fn lemma_extension(path: Text)
    ensures
        match language::extension(path) {
            Some(e) => has_extension(path, e),
            None => forall|i: int| 0 <= i < path.len() ==> #[trigger] path[i] != '.',
        },
        forall|e: Text| #[trigger] has_extension(path, e) ==> language::extension(path) == Some(e),
    decreases path.len(),
{
    if path.len() > 0 {
        let front = path.drop_last();
        lemma_extension(front);
        if path.last() == '.' {
            let none: Text = Seq::empty();
            assert(path.skip(path.len() as int) =~= none);
            assert(has_extension(path, none));
            assert forall|e: Text| #[trigger] has_extension(path, e) implies e =~= none by {
                if e.len() > 0 {
                    assert(e[e.len() - 1] == path.skip(path.len() - e.len())[e.len() - 1]);
                }
            }
        } else {
            match language::extension(front) {
                Some(f) => {
                    let e = f.push(path.last());
                    assert(path.skip(path.len() - e.len()) =~= front.skip(front.len() - f.len()).push(
                        path.last(),
                    ));
                    assert forall|i: int| 0 <= i < e.len() implies #[trigger] e[i] != '.' by {
                        if i < f.len() {
                            assert(f[i] != '.');
                        }
                    }
                    assert(front[front.len() - f.len() - 1] == path[path.len() - e.len() - 1]);
                    assert(has_extension(path, e));
                },
                None => {
                    assert forall|i: int| 0 <= i < path.len() implies #[trigger] path[i] != '.' by {
                        if i < front.len() {
                            assert(front[i] != '.');
                        }
                    }
                },
            }
            assert forall|e: Text| #[trigger] has_extension(path, e) implies language::extension(
                path,
            ) == Some(e) by {
                if e.len() == 0 {
                    assert(path[path.len() - 1] == '.');
                } else {
                    let f = e.drop_last();
                    assert(path.skip(path.len() - e.len())[e.len() - 1] == path.last());
                    assert(front.skip(front.len() - f.len()) =~= f) by {
                        assert forall|i: int| 0 <= i < f.len() implies front.skip(
                            front.len() - f.len(),
                        )[i] == f[i] by {
                            assert(path.skip(path.len() - e.len())[i] == e[i]);
                        }
                    }
                    assert forall|i: int| 0 <= i < f.len() implies #[trigger] f[i] != '.' by {
                        assert(e[i] != '.');
                    }
                    assert(front[front.len() - f.len() - 1] == path[path.len() - e.len() - 1]);
                    assert(has_extension(front, f));
                    assert(f.push(path.last()) =~= e);
                }
            }
        }
    }
}

/// The rule at `j` of the plugin at `i` applies to the path and gives the
/// target: the plugin covers the extension of the path.
pub open spec fn gives(
    plugins: Seq<LanguageView>,
    path: Text,
    i: int,
    j: int,
    target: Text,
) -> bool {
    &&& 0 <= i < plugins.len()
    &&& 0 <= j < plugins[i].validation_targets.len()
    &&& exists|e: Text| #[trigger] has_extension(path, e) && plugins[i].extensions.contains(e)
    &&& language::rule_target(plugins[i].validation_targets[j], path) == Some(target)
}

/// The validating file is the one that the first rule of the first plugin
/// gives that gives any.
pub proof fn law_the_first_rule_that_applies_counts(plugins: Seq<LanguageView>, path: Text)
    ensures
        match language::validation_target(plugins, path) {
            Some(target) => exists|i: int, j: int|
                #[trigger] gives(plugins, path, i, j, target) && forall|k: int, l: int, t: Text|
                    #[trigger] gives(plugins, path, k, l, t) ==> i < k || (i == k && j <= l),
            None => forall|k: int, l: int, t: Text| !(#[trigger] gives(plugins, path, k, l, t)),
        },
{
    lemma_extension(path);
    let check = language::plugin_check(plugins, path);
    search::lemma_first_some_none(plugins.len(), check);
    assert forall|k: int| 0 <= k < plugins.len() implies language::covers(
        #[trigger] plugins[k],
        path,
    ) == exists|e: Text|
        #[trigger] has_extension(path, e) && plugins[k].extensions.contains(e) by {
        if let Some(e) = language::extension(path) {
            assert(has_extension(path, e));
        }
    }
    assert forall|k: int, l: int, t: Text| #[trigger] gives(plugins, path, k, l, t) implies check(
        k,
    ) is Some by {
        let rules = plugins[k].validation_targets;
        let inner = language::rule_check(rules, path);
        search::lemma_first_some_none(rules.len(), inner);
        assert(language::covers(plugins[k], path));
        assert(inner(l) is Some);
    }
    if language::validation_target(plugins, path) is Some {
        let i = search::lemma_first_some_found(plugins.len(), check);
        let rules = plugins[i].validation_targets;
        let inner = language::rule_check(rules, path);
        assert(language::covers(plugins[i], path));
        let j = search::lemma_first_some_found(rules.len(), inner);
        let target = language::validation_target(plugins, path)->0;
        assert(gives(plugins, path, i, j, target));
        assert forall|k: int, l: int, t: Text| #[trigger] gives(
            plugins,
            path,
            k,
            l,
            t,
        ) implies i < k || (i == k && j <= l) by {
            if k < i {
                assert(check(k) is None);
            } else if k == i && l < j {
                assert(inner(l) is None);
            }
        }
    } else {
        assert forall|k: int, l: int, t: Text| !(#[trigger] gives(plugins, path, k, l, t)) by {
            if gives(plugins, path, k, l, t) {
                assert(check(k) is None);
            }
        }
    }
}

// ── diffs ──────────────────────────────────────────────────────────────────

/// The diff of a workspace starts with that of its tracked files and holds
/// that of every untracked file after it.
pub proof fn law_diffs_hold_every_file(base: Text, more: Seq<Text>, f: int)
    requires
        0 <= f < more.len(),
    ensures
        workspace_changes::with_diffs(base, more).len() >= base.len(),
        workspace_changes::with_diffs(base, more).take(base.len() as int) == base,
        text::occurs_in(more[f], workspace_changes::with_diffs(base, more)),
    decreases more.len(),
{
    reveal_strlit("\n");
    let front = more.drop_last();
    let earlier = workspace_changes::with_diffs(base, front);
    let whole = workspace_changes::with_diffs(base, more);
    let last = more.last();
    assert(whole.take(earlier.len() as int) =~= earlier);
    let p = whole.len() - last.len();
    assert(whole.subrange(p, p + last.len()) =~= last);
    assert(text::occurs_at(last, whole, p));
    if f < front.len() {
        law_diffs_hold_every_file(base, front, f);
        assert(front[f] == more[f]);
        let q = choose|q: int| text::occurs_at(front[f], earlier, q);
        assert(whole.subrange(q, q + more[f].len()) =~= earlier.subrange(q, q + more[f].len()));
        assert(text::occurs_at(more[f], whole, q));
        assert(whole.take(base.len() as int) =~= earlier.take(base.len() as int));
    } else {
        if front.len() > 0 {
            law_diffs_hold_every_file(base, front, 0);
        } else {
            assert(earlier == base);
        }
        assert(earlier.take(base.len() as int) =~= base) by {
            if front.len() == 0 {
                assert(base.take(base.len() as int) =~= base);
            }
        }
        assert(whole.take(base.len() as int) =~= earlier.take(base.len() as int));
    }
}

/// Each diff of an untracked file starts on a line of its own, right behind
/// what stands before it: a line feed is put between them exactly where one is
/// missing.
pub proof fn law_diffs_start_on_their_own_lines(base: Text, more: Seq<Text>, last: Text)
    ensures
        workspace_changes::with_diffs(base, Seq::empty()) == base,
        ({
            let before = workspace_changes::with_diffs(base, more);
            let whole = workspace_changes::with_diffs(base, more.push(last));
            if before.len() == 0 || before.last() == '\n' {
                whole == before + last
            } else {
                whole == before.push('\n') + last
            }
        }),
{
    reveal_strlit("\n");
    let before = workspace_changes::with_diffs(base, more);
    assert(more.push(last).drop_last() =~= more);
    assert(before + "\n"@ =~= before.push('\n'));
}

} // verus!
