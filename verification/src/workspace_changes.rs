//! Reading what version control says of a workspace.

use vstd::prelude::*;

use crate::text;
use crate::text::{chars_of, lines_of, trim_text, Text};

verus! {

/// What a command came to.
pub struct CommandOutput {
    /// Whether it reported success.
    pub success: bool,
    /// What it printed.
    pub stdout: String,
    /// What it printed as errors.
    pub stderr: String,
}

/// Bytes of a status line before the path.
pub const STATUS_COLUMNS: usize = 3;

/// What follows the status columns of a line, where they are whole characters.
pub open spec fn after_columns(line: Text) -> Option<Text> {
    let bytes = vstd::utf8::encode_utf8(line);
    if vstd::utf8::is_char_boundary(bytes, STATUS_COLUMNS as int) {
        Some(
            vstd::utf8::decode_utf8(bytes.subrange(STATUS_COLUMNS as int, bytes.len() as int)),
        )
    } else {
        None
    }
}

/// The path that a status line names, if it names one.
pub open spec fn status_path(line: Text) -> Option<Text> {
    match after_columns(line) {
        Some(rest) => if text::trim(rest).len() > 0 {
            Some(text::trim(rest))
        } else {
            None
        },
        None => None,
    }
}

/// The paths that the first `k` status lines name, in order.
pub open spec fn status_paths(lines: Seq<Text>, k: int) -> Seq<Text>
    decreases k,
{
    if k <= 0 {
        Seq::empty()
    } else {
        match status_path(lines[k - 1]) {
            Some(path) => status_paths(lines, k - 1).push(path),
            None => status_paths(lines, k - 1),
        }
    }
}

/// The paths that a status listing names; none where the command failed.
pub open spec fn paths_of(output: Option<CommandOutput>) -> Seq<Text> {
    match output {
        Some(o) => if o.success {
            let lines = text::lines(o.stdout@);
            status_paths(lines, lines.len() as int)
        } else {
            Seq::empty()
        },
        None => Seq::empty(),
    }
}

fn path_in(line: &str) -> (path: Option<String>)
    ensures
        text::opt_text(path) == status_path(line@),
{
    if !line.is_char_boundary(STATUS_COLUMNS) {
        return None;
    }
    let rest = line.split_at(STATUS_COLUMNS).1;
    proof {
        vstd::utf8::encode_utf8_decode_utf8(rest@);
    }
    let path = trim_text(rest);
    if chars_of(path).len() > 0 {
        Some(path.to_string())
    } else {
        None
    }
}

/// The paths that a status listing names.
pub fn changed_paths(output: &Option<CommandOutput>) -> (paths: Vec<String>)
    ensures
        text::texts(paths@) == paths_of(*output),
{
    let mut paths: Vec<String> = Vec::new();
    assert(text::texts(paths@) =~= Seq::<Text>::empty());
    if let Some(output) = output {
        if output.success {
            let lines = lines_of(output.stdout.as_str());
            let ghost all = text::lines(output.stdout@);
            let mut i: usize = 0;
            assert(text::texts(lines@).len() == lines@.len());
            while i < lines.len()
                invariant
                    i <= lines.len(),
                    all == text::texts(lines@),
                    text::texts(paths@) == status_paths(all, i as int),
                decreases lines.len() - i,
            {
                assert(all[i as int] == lines@[i as int]@);
                if let Some(path) = path_in(lines[i].as_str()) {
                    let ghost before = text::texts(paths@);
                    paths.push(path);
                    assert(text::texts(paths@) =~= before.push(path@));
                }
                i += 1;
            }
        }
    }
    paths
}

// ── diffs ──────────────────────────────────────────────────────────────────

/// The diff of the tracked files, or why there is none.
pub open spec fn tracked_diff(output: Option<CommandOutput>) -> Text {
    match output {
        None => "(failed to collect git diff)"@,
        Some(o) => if o.success {
            o.stdout@
        } else {
            "(failed to collect git diff: "@ + text::trim(o.stderr@) + ")"@
        },
    }
}

/// The diff of the tracked files, or why there is none.
pub fn git_diff(output: Option<CommandOutput>) -> (diff: String)
    ensures
        diff@ == tracked_diff(output),
{
    match output {
        None => "(failed to collect git diff)".to_string(),
        Some(output) => {
            if output.success {
                output.stdout
            } else {
                let mut diff = "(failed to collect git diff: ".to_string();
                diff.append(trim_text(output.stderr.as_str()));
                diff.append(")");
                diff
            }
        },
    }
}

/// Whether the listing of a tracked path failed: the path is not tracked.
pub fn is_untracked(output: &Option<CommandOutput>) -> (untracked: bool)
    ensures
        untracked == (output matches Some(o) && !o.success),
{
    match output {
        Some(output) => !output.success,
        None => false,
    }
}

/// The diff of an untracked file, or why there is none. The command reports
/// no success when files differ, so only errors without output count.
pub open spec fn new_file_diff(path: Text, output: Option<CommandOutput>) -> Text {
    match output {
        None => "(failed to collect untracked diff for "@ + path + ")\n"@,
        Some(o) => if o.stdout@.len() == 0 && !o.success && o.stderr@.len() > 0 {
            "(failed to collect untracked diff for "@ + path + ": "@ + text::trim(o.stderr@)
                + ")\n"@
        } else {
            o.stdout@
        },
    }
}

/// The diff of an untracked file, or why there is none.
pub fn untracked_file_diff(path: &String, output: Option<CommandOutput>) -> (diff: String)
    ensures
        diff@ == new_file_diff(path@, output),
{
    match output {
        None => {
            let mut diff = "(failed to collect untracked diff for ".to_string();
            diff.append(path.as_str());
            diff.append(")\n");
            diff
        },
        Some(output) => {
            if chars_of(output.stdout.as_str()).len() == 0 && !output.success && chars_of(
                output.stderr.as_str(),
            ).len() > 0 {
                let mut diff = "(failed to collect untracked diff for ".to_string();
                diff.append(path.as_str());
                diff.append(": ");
                diff.append(trim_text(output.stderr.as_str()));
                diff.append(")\n");
                diff
            } else {
                output.stdout
            }
        },
    }
}

/// A diff with another one after it, on a line of its own.
pub open spec fn with_diff(diff: Text, more: Text) -> Text {
    if diff.len() > 0 && diff.last() != '\n' {
        diff + "\n"@ + more
    } else {
        diff + more
    }
}

/// A diff with others after it.
pub open spec fn with_diffs(diff: Text, more: Seq<Text>) -> Text
    decreases more.len(),
{
    if more.len() == 0 {
        diff
    } else {
        with_diff(with_diffs(diff, more.drop_last()), more.last())
    }
}

/// The diff of a workspace: that of its tracked files, and those of its
/// untracked files after it.
pub fn workspace_diff(base: String, untracked: &Vec<String>) -> (diff: String)
    ensures
        diff@ == with_diffs(base@, text::texts(untracked@)),
{
    let ghost all = text::texts(untracked@);
    let mut diff = base;
    let mut i: usize = 0;
    assert(all.take(0) =~= Seq::<Text>::empty());
    while i < untracked.len()
        invariant
            i <= untracked.len(),
            all == text::texts(untracked@),
            diff@ == with_diffs(base@, all.take(i as int)),
        decreases untracked.len() - i,
    {
        proof {
            assert(all.take(i + 1).drop_last() =~= all.take(i as int));
            assert(all.take(i + 1).last() == untracked@[i as int]@);
        }
        let chars = chars_of(diff.as_str());
        if chars.len() > 0 && chars[chars.len() - 1] != '\n' {
            diff.append("\n");
        }
        diff.append(untracked[i].as_str());
        i += 1;
    }
    assert(all.take(all.len() as int) =~= all);
    diff
}

} // verus!
