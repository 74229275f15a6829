//! Diagnostics of a failed validation, as the next attempt is told them.

use std::sync::Arc;

use vstd::prelude::*;

use crate::artifacts::Workspace;
use crate::search;
use crate::text;
use crate::text::{
    chars_of, is_space_char, join_texts, lines_of, part_at, signed_decimal_text, trim_end_text,
    trim_start_text, trim_text, Text,
};
use crate::validation_plan::{ValidationCommandFailure, ValidationResult};

verus! {

/// Judges the changes in a workspace.
pub trait Validator {
    /// Whether this is a verdict that the validator may give on a workspace.
    /// A validator that promises nothing may give any.
    closed spec fn may_say(&self, workspace: Workspace, result: ValidationResult) -> bool {
        true
    }

    /// Judges the changes in a workspace.
    fn validate(&self, workspace: &Workspace) -> (result: ValidationResult)
        ensures
            self.may_say(*workspace, result),
    ;
}

/// Passes everything.
pub struct AlwaysPassValidator;

impl Validator for AlwaysPassValidator {
    open spec fn may_say(&self, workspace: Workspace, result: ValidationResult) -> bool {
        &&& result.passed
        &&& result.summary@ == "no validation configured"@
        &&& result.failure is None
    }

    fn validate(&self, workspace: &Workspace) -> (result: ValidationResult) {
        ValidationResult {
            passed: true,
            summary: "no validation configured".to_string(),
            failure: None,
        }
    }
}

/// Whether a verdict is one that a validator may give on a workspace; without
/// a validator, everything passes.
pub open spec fn may_judge(
    validator: Option<Arc<dyn Validator>>,
    workspace: Workspace,
    result: ValidationResult,
) -> bool {
    match validator {
        Some(v) => v.may_say(workspace, result),
        None => AlwaysPassValidator.may_say(workspace, result),
    }
}

/// Lines of output that the next attempt is told.
pub const DIAGNOSTIC_LIMIT: usize = 5;

// ── words ──────────────────────────────────────────────────────────────────

/// The characters up to the first white space.
pub open spec fn leading_word(s: Text) -> Text
    decreases s.len(),
{
    if s.len() == 0 || text::is_space(s[0]) {
        Seq::empty()
    } else {
        seq![s[0]] + leading_word(s.drop_first())
    }
}

/// The first word of a line; the line itself if it has none.
pub open spec fn first_word(line: Text) -> Text {
    let rest = text::trim_start(line);
    if rest.len() == 0 {
        line
    } else {
        leading_word(rest)
    }
}

/// The text without colons at its end.
pub open spec fn trim_colons(s: Text) -> Text
    decreases s.len(),
{
    if s.len() > 0 && s.last() == ':' {
        trim_colons(s.drop_last())
    } else {
        s
    }
}

/// The position of the last colon.
pub open spec fn last_colon(s: Text) -> Option<int>
    decreases s.len(),
{
    if s.len() == 0 {
        None
    } else if s.last() == ':' {
        Some(s.len() - 1)
    } else {
        last_colon(s.drop_last())
    }
}

/// Every character is a decimal digit.
pub open spec fn all_digits(s: Text) -> bool {
    forall|i: int| 0 <= i < s.len() ==> '0' <= #[trigger] s[i] <= '9'
}

fn find_first_word(line: &str) -> (word: &str)
    ensures
        word@ == first_word(line@),
{
    let rest = trim_start_text(line);
    let chars = chars_of(rest);
    if chars.len() == 0 {
        return line;
    }
    let mut i: usize = 0;
    proof {
        assert(rest@.take(0) + leading_word(rest@.skip(0)) =~= leading_word(rest@)) by {
            assert(rest@.skip(0) =~= rest@);
            assert(rest@.take(0) =~= Seq::<char>::empty());
        }
    }
    while i < chars.len() && !is_space_char(chars[i])
        invariant
            chars@ == rest@,
            i <= chars.len(),
            leading_word(rest@) == rest@.take(i as int) + leading_word(rest@.skip(i as int)),
        decreases chars.len() - i,
    {
        proof {
            let tail = rest@.skip(i as int);
            assert(tail[0] == rest@[i as int]);
            assert(tail.drop_first() =~= rest@.skip(i + 1));
            assert(rest@.take(i as int) + (seq![rest@[i as int]] + leading_word(
                rest@.skip(i + 1),
            )) =~= rest@.take(i + 1) + leading_word(rest@.skip(i + 1)));
        }
        i += 1;
    }
    proof {
        let tail = rest@.skip(i as int);
        if i < chars@.len() {
            assert(tail[0] == rest@[i as int]);
        }
        assert(leading_word(tail) =~= Seq::<char>::empty());
        assert(leading_word(rest@) =~= rest@.subrange(0, i as int));
    }
    rest.substring_char(0, i)
}

fn without_colons(s: &str) -> (out: &str)
    ensures
        out@ == trim_colons(s@),
{
    let chars = chars_of(s);
    let mut i: usize = chars.len();
    assert(s@.take(s@.len() as int) =~= s@);
    while i > 0 && chars[i - 1] == ':'
        invariant
            chars@ == s@,
            i <= chars.len(),
            trim_colons(s@) == trim_colons(s@.take(i as int)),
        decreases i,
    {
        assert(s@.take(i as int).drop_last() =~= s@.take(i - 1));
        i -= 1;
    }
    assert(s@.take(i as int) =~= s@.subrange(0, i as int));
    s.substring_char(0, i)
}

fn find_last_colon(chars: &Vec<char>, end: usize) -> (position: Option<usize>)
    requires
        end <= chars.len(),
    ensures
        match position {
            Some(p) => p < end && last_colon(chars@.take(end as int)) == Some(p as int),
            None => last_colon(chars@.take(end as int)) is None,
        },
{
    let mut i: usize = end;
    while i > 0
        invariant
            i <= end,
            end <= chars.len(),
            last_colon(chars@.take(end as int)) == last_colon(chars@.take(i as int)),
        decreases i,
    {
        assert(chars@.take(i as int).drop_last() =~= chars@.take(i - 1));
        if chars[i - 1] == ':' {
            return Some(i - 1);
        }
        i -= 1;
    }
    None
}

fn are_digits(chars: &Vec<char>, start: usize, end: usize) -> (digits: bool)
    requires
        start <= end <= chars.len(),
    ensures
        digits == all_digits(chars@.subrange(start as int, end as int)),
{
    let ghost part = chars@.subrange(start as int, end as int);
    let mut i: usize = start;
    while i < end
        invariant
            start <= i <= end,
            end <= chars.len(),
            part == chars@.subrange(start as int, end as int),
            forall|j: int| 0 <= j < i - start ==> '0' <= #[trigger] part[j] <= '9',
        decreases end - i,
    {
        let c: char = chars[i];
        assert(part[i - start] == c);
        if c < '0' || c > '9' {
            return false;
        }
        i += 1;
    }
    true
}

// ── locations ──────────────────────────────────────────────────────────────

/// The first word of the line names a place: it ends in a line number after a
/// colon, and what stands before the colon is a name, or a line number with
/// something before it.
pub open spec fn is_location(line: Text) -> bool {
    let candidate = trim_colons(first_word(line));
    match last_colon(candidate) {
        None => false,
        Some(p) => {
            let head = candidate.take(p);
            let (previous, more) = match last_colon(head) {
                None => (head, false),
                Some(q) => (head.skip(q + 1), true),
            };
            all_digits(candidate.skip(p + 1)) && if all_digits(previous) {
                more
            } else {
                previous.len() > 0
            }
        },
    }
}

/// Whether the first word of the line names a place.
pub fn looks_like_location(line: &str) -> (found: bool)
    ensures
        found == is_location(line@),
{
    let candidate = without_colons(find_first_word(line));
    let chars = chars_of(candidate);
    let ghost whole = candidate@;
    assert(whole.take(whole.len() as int) =~= whole);
    match find_last_colon(&chars, chars.len()) {
        None => false,
        Some(p) => {
            let ghost head = whole.take(p as int);
            assert(whole.skip(p + 1) =~= whole.subrange(p + 1, whole.len() as int));
            if !are_digits(&chars, p + 1, chars.len()) {
                return false;
            }
            match find_last_colon(&chars, p) {
                None => {
                    assert(head =~= whole.subrange(0, p as int));
                    if are_digits(&chars, 0, p) {
                        false
                    } else {
                        p > 0
                    }
                },
                Some(q) => {
                    assert(head.skip(q + 1) =~= whole.subrange(q + 1, p as int));
                    if are_digits(&chars, q + 1, p) {
                        true
                    } else {
                        p - (q + 1) > 0
                    }
                },
            }
        },
    }
}

/// The line starts with the prefix.
pub open spec fn starts_with(line: Text, prefix: Text) -> bool {
    text::occurs_at(prefix, line, 0)
}

/// The place that a line of output names, if it names one.
pub open spec fn location_in(line: Text) -> Option<Text> {
    let line = text::trim(line);
    let location = if starts_with(line, "-->"@) {
        text::trim(line.skip(3))
    } else {
        line
    };
    if is_location(location) {
        Some(trim_colons(first_word(location)))
    } else if starts_with(line, "File \""@) {
        Some(line)
    } else {
        None
    }
}

fn has_prefix(line: &str, prefix: &str) -> (found: bool)
    ensures
        found == starts_with(line@, prefix@),
{
    part_at(&chars_of(line), &chars_of(prefix), 0)
}

fn find_location(line: &str) -> (location: Option<String>)
    ensures
        text::opt_text(location) == location_in(line@),
{
    let line = trim_text(line);
    proof {
        reveal_strlit("-->");
    }
    let location = if has_prefix(line, "-->") {
        let length = chars_of(line).len();
        assert(line@.skip(3) =~= line@.subrange(3, line@.len() as int));
        trim_text(line.substring_char(3, length))
    } else {
        line
    };
    if looks_like_location(location) {
        Some(without_colons(find_first_word(location)).to_string())
    } else if has_prefix(line, "File \"") {
        Some(line.to_string())
    } else {
        None
    }
}

/// The place that the line at a position names.
pub open spec fn location_check(lines: Seq<Text>) -> spec_fn(int) -> Option<Text> {
    |i: int| location_in(lines[i])
}

/// The first place that the diagnostics name.
pub open spec fn first_location(diagnostics: Text) -> Option<Text> {
    let lines = text::lines(diagnostics);
    search::first_some(lines.len(), location_check(lines))
}

/// Finds the first place that the diagnostics name.
pub fn first_diagnostic_location(diagnostics: &str) -> (location: Option<String>)
    ensures
        text::opt_text(location) == first_location(diagnostics@),
{
    let lines = lines_of(diagnostics);
    let ghost all = text::lines(diagnostics@);
    let mut i: usize = 0;
    while i < lines.len()
        invariant
            i <= lines.len(),
            all == text::texts(lines@),
            all == text::lines(diagnostics@),
            search::first_some(i as nat, location_check(all)) is None,
        decreases lines.len() - i,
    {
        assert(all[i as int] == lines@[i as int]@);
        let location = find_location(lines[i].as_str());
        if location.is_some() {
            proof {
                search::lemma_first_some_extends((i + 1) as nat, all.len(), location_check(all));
            }
            return location;
        }
        i += 1;
    }
    None
}

// ── diagnostics ────────────────────────────────────────────────────────────

/// The lines of a text that are not blank, without white space at their ends.
pub open spec fn nonblank_lines(s: Text) -> Seq<Text> {
    text::lines(s).map_values(|line: Text| text::trim_end(line)).filter(
        |line: Text| text::trim(line).len() > 0,
    )
}

/// Splits a text into its lines that are not blank, without white space at
/// their ends.
pub fn nonempty_lines(s: &str) -> (out: Vec<String>)
    ensures
        text::texts(out@) == nonblank_lines(s@),
{
    let lines = lines_of(s);
    let ghost ends = text::lines(s@).map_values(|line: Text| text::trim_end(line));
    let ghost pred = |line: Text| text::trim(line).len() > 0;
    let mut out: Vec<String> = Vec::new();
    let mut i: usize = 0;
    assert(ends.take(0).filter(pred) =~= Seq::<Text>::empty()) by {
        reveal(Seq::filter);
    }
    assert(text::texts(out@) =~= ends.take(0).filter(pred));
    while i < lines.len()
        invariant
            i <= lines.len(),
            text::texts(lines@) == text::lines(s@),
            ends == text::lines(s@).map_values(|line: Text| text::trim_end(line)),
            pred == (|line: Text| text::trim(line).len() > 0),
            text::texts(out@) == ends.take(i as int).filter(pred),
        decreases lines.len() - i,
    {
        proof {
            assert(text::texts(lines@)[i as int] == lines@[i as int]@);
            crate::queries::lemma_filter_step(ends, pred, i as int);
        }
        let line = trim_end_text(lines[i].as_str());
        if chars_of(trim_text(line)).len() > 0 {
            let ghost before = text::texts(out@);
            out.push(line.to_string());
            assert(text::texts(out@) =~= before.push(line@));
        }
        i += 1;
    }
    assert(ends.take(ends.len() as int) =~= ends);
    out
}

/// The first `k` items, or all.
pub open spec fn at_most(list: Seq<Text>, k: nat) -> Seq<Text> {
    if list.len() <= k {
        list
    } else {
        list.take(k as int)
    }
}

/// The first lines of what a command printed: its errors, or its output where
/// it printed no errors.
pub open spec fn diagnostics(stdout: Text, stderr: Text) -> Text {
    let source = if nonblank_lines(stderr).len() == 0 {
        nonblank_lines(stdout)
    } else {
        nonblank_lines(stderr)
    };
    if source.len() == 0 {
        "(no diagnostic output)"@
    } else {
        text::join(at_most(source, DIAGNOSTIC_LIMIT as nat), "\n"@)
    }
}

/// The first lines of what a failed command printed.
pub fn diagnostic_lines(failure: &ValidationCommandFailure) -> (out: String)
    ensures
        out@ == diagnostics(failure.stdout@, failure.stderr@),
{
    let errors = nonempty_lines(failure.stderr.as_str());
    let mut source = if errors.len() == 0 {
        nonempty_lines(failure.stdout.as_str())
    } else {
        errors
    };
    proof {
        assert(text::texts(errors@).len() == errors@.len());
        assert(text::texts(source@).len() == source@.len());
    }
    if source.len() == 0 {
        return "(no diagnostic output)".to_string();
    }
    let ghost all = text::texts(source@);
    if source.len() > DIAGNOSTIC_LIMIT {
        source.truncate(DIAGNOSTIC_LIMIT);
        assert(text::texts(source@) =~= all.take(DIAGNOSTIC_LIMIT as int));
    }
    join_texts(&source, "\n")
}

/// The first line of a summary, or a note that it is empty.
pub open spec fn in_one_line(s: Text) -> Text {
    let trimmed = text::trim(s);
    if trimmed.len() == 0 {
        "(empty)"@
    } else {
        text::trim(text::lines(trimmed)[0])
    }
}

/// The first line of a summary, or a note that it is empty.
pub fn one_line(s: &str) -> (out: String)
    ensures
        out@ == in_one_line(s@),
{
    let trimmed = trim_text(s);
    if chars_of(trimmed).len() == 0 {
        return "(empty)".to_string();
    }
    let lines = lines_of(trimmed);
    proof {
        assert(text::texts(lines@).len() == lines@.len());
        search::lemma_first_some_none(trimmed@.len(), text::newline_check(trimmed@));
        if let Some(p) = text::first_newline(trimmed@) {
            search::lemma_first_some_found(trimmed@.len(), text::newline_check(trimmed@));
        }
        assert(text::lines(trimmed@).len() > 0);
        assert(text::texts(lines@)[0] == lines@[0]@);
    }
    trim_text(lines[0].as_str()).to_string()
}

/// What the next attempt is told of a failed validation.
pub open spec fn retry_message(
    summary: Text,
    failure: Option<(Text, Option<i32>, Text, Text)>,
) -> Text {
    match failure {
        None => "validation failed\nsummary: "@ + in_one_line(summary)
            + "\ninstruction: fix the existing file using file tools before accepting"@,
        Some((command, exit_code, stdout, stderr)) => {
            let shown = diagnostics(stdout, stderr);
            "validation failed\ncommand: "@ + command + "\nexit code: "@ + (match exit_code {
                Some(code) => text::signed_decimal(code as int),
                None => "none"@,
            }) + "\nfirst location: "@ + (match first_location(shown) {
                Some(location) => location,
                None => "(not detected)"@,
            }) + "\ndiagnostics:\n"@ + shown
                + "\ninstruction: fix the existing file using file tools before accepting"@
        },
    }
}

/// The value of an optional command failure: command, exit code, output and
/// errors.
pub open spec fn failure_parts(failure: Option<ValidationCommandFailure>) -> Option<
    (Text, Option<i32>, Text, Text),
> {
    match failure {
        Some(f) => Some((f.command@, f.exit_code, f.stdout@, f.stderr@)),
        None => None,
    }
}

/// Writes what the next attempt is told of a failed validation.
pub fn validation_retry_message(
    summary: &str,
    failure: &Option<ValidationCommandFailure>,
) -> (message: String)
    ensures
        message@ == retry_message(summary@, failure_parts(*failure)),
{
    match failure {
        None => {
            let mut message = "validation failed\nsummary: ".to_string();
            message.append(one_line(summary).as_str());
            message.append(
                "\ninstruction: fix the existing file using file tools before accepting",
            );
            message
        },
        Some(failure) => {
            let shown = diagnostic_lines(failure);
            let mut message = "validation failed\ncommand: ".to_string();
            message.append(failure.command.as_str());
            message.append("\nexit code: ");
            match failure.exit_code {
                Some(code) => message.append(signed_decimal_text(code).as_str()),
                None => message.append("none"),
            }
            message.append("\nfirst location: ");
            match first_diagnostic_location(shown.as_str()) {
                Some(location) => message.append(location.as_str()),
                None => message.append("(not detected)"),
            }
            message.append("\ndiagnostics:\n");
            message.append(shown.as_str());
            message.append(
                "\ninstruction: fix the existing file using file tools before accepting",
            );
            message
        },
    }
}

} // verus!
