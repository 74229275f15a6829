//! Finding the file that validates a source file.

use vstd::prelude::*;

use crate::search;
use crate::teams::{LanguageSpec, LanguageView, RuleView, ValidationTargetRule};
use crate::text;
use crate::text::{chars_of, contains_text, part_at, Text};

verus! {

/// What stands for the stem in patterns and targets.
pub open spec fn placeholder() -> Text {
    "{stem}"@
}

/// A position, if `part` stands there.
pub open spec fn occurrence_check(part: Text, whole: Text) -> spec_fn(int) -> Option<int> {
    |i: int|
        if text::occurs_at(part, whole, i) {
            Some(i)
        } else {
            None
        }
}

/// The first position of `part` in `whole`, if it occurs.
pub open spec fn first_occurrence(part: Text, whole: Text) -> Option<int> {
    search::first_some(whole.len() + 1, occurrence_check(part, whole))
}

/// `target` with every placeholder replaced by `stem`.
pub open spec fn substituted(target: Text, stem: Text) -> Text
    decreases target.len(),
{
    match first_occurrence(placeholder(), target) {
        Some(p) => if 0 <= p && p + placeholder().len() <= target.len() && placeholder().len() > 0 {
            target.take(p) + stem + substituted(target.skip((p + placeholder().len()) as int), stem)
        } else {
            target
        },
        None => target,
    }
}

/// What the placeholder of `pattern` stands for in `path`, if `path` has the
/// shape of `pattern`. A pattern without one matches only itself.
pub open spec fn matched_stem(pattern: Text, path: Text) -> Option<Text> {
    match first_occurrence(placeholder(), pattern) {
        Some(p) => {
            let before = pattern.take(p);
            let after = pattern.skip((p + placeholder().len()) as int);
            if before.len() + after.len() <= path.len() && path.take(before.len() as int) == before
                && path.skip(path.len() - after.len()) == after {
                Some(path.subrange(before.len() as int, path.len() - after.len()))
            } else {
                None
            }
        },
        None => if path == pattern {
            Some(Seq::empty())
        } else {
            None
        },
    }
}

/// The validating file by one rule, if the rule applies.
pub open spec fn rule_target(rule: RuleView, path: Text) -> Option<Text> {
    match matched_stem(rule.pattern, path) {
        Some(stem) => Some(substituted(rule.target, stem)),
        None => None,
    }
}

/// The validating file by the rule at a position.
pub open spec fn rule_check(rules: Seq<RuleView>, path: Text) -> spec_fn(int) -> Option<Text> {
    |i: int| rule_target(rules[i], path)
}

/// The text after the last dot, if there is a dot.
pub open spec fn extension(path: Text) -> Option<Text>
    decreases path.len(),
{
    if path.len() == 0 {
        None
    } else if path.last() == '.' {
        Some(Seq::empty())
    } else {
        match extension(path.drop_last()) {
            Some(e) => Some(e.push(path.last())),
            None => None,
        }
    }
}

/// The plugin covers files like `path`.
pub open spec fn covers(plugin: LanguageView, path: Text) -> bool {
    match extension(path) {
        Some(e) => plugin.extensions.contains(e),
        None => false,
    }
}

/// The validating file by the plugin at a position.
pub open spec fn plugin_check(plugins: Seq<LanguageView>, path: Text) -> spec_fn(
    int,
) -> Option<Text> {
    |i: int|
        if covers(plugins[i], path) {
            search::first_some(
                plugins[i].validation_targets.len(),
                rule_check(plugins[i].validation_targets, path),
            )
        } else {
            None
        }
}

/// The file that validates `path`: by the first rule that applies, of the
/// first plugin that covers it and has one.
pub open spec fn validation_target(plugins: Seq<LanguageView>, path: Text) -> Option<Text> {
    search::first_some(plugins.len(), plugin_check(plugins, path))
}

fn find_first(whole: &Vec<char>, part: &Vec<char>) -> (position: Option<usize>)
    ensures
        match position {
            Some(p) => first_occurrence(part@, whole@) == Some(p as int) && p + part@.len()
                <= whole@.len(),
            None => first_occurrence(part@, whole@) is None,
        },
{
    let ghost check = occurrence_check(part@, whole@);
    let mut i: usize = 0;
    while i < whole.len()
        invariant
            i <= whole.len(),
            check == occurrence_check(part@, whole@),
            search::first_some(i as nat, check) is None,
        decreases whole.len() - i,
    {
        if part_at(whole, part, i) {
            proof {
                search::lemma_first_some_extends((i + 1) as nat, whole@.len() + 1, check);
            }
            return Some(i);
        }
        i += 1;
    }
    if part_at(whole, part, i) {
        Some(i)
    } else {
        None
    }
}

/// `target` with every `{stem}` replaced by `stem`.
pub fn substitute_stem(target: &str, stem: &str) -> (out: String)
    ensures
        out@ == substituted(target@, stem@),
{
    proof {
        reveal_strlit("{stem}");
    }
    let mark = chars_of("{stem}");
    let mut out = String::new();
    let mut rest: &str = target;
    let mut left: usize = chars_of(target).len();
    let mut found = true;
    while found
        invariant
            mark@ == placeholder(),
            mark@.len() == 6,
            left == rest@.len(),
            found ==> substituted(target@, stem@) == out@ + substituted(rest@, stem@),
            !found ==> substituted(target@, stem@) == out@,
        decreases left + (if found { 1int } else { 0int }),
    {
        let chars = chars_of(rest);
        match find_first(&chars, &mark) {
            Some(p) => {
                let ghost whole = rest@;
                let ghost written = out@;
                out.append(rest.substring_char(0, p));
                out.append(stem);
                rest = rest.substring_char(p + 6, chars.len());
                left = chars.len() - p - 6;
                proof {
                    assert(rest@ =~= whole.skip(p + 6));
                    assert(out@ + substituted(rest@, stem@) =~= written + (whole.take(p as int)
                        + stem@ + substituted(rest@, stem@)));
                }
            },
            None => {
                out.append(rest);
                found = false;
            },
        }
    }
    out
}

fn match_stem(pattern: &str, path: &str) -> (stem: Option<String>)
    ensures
        text::opt_text(stem) == matched_stem(pattern@, path@),
{
    proof {
        reveal_strlit("{stem}");
    }
    let mark = chars_of("{stem}");
    let shape = chars_of(pattern);
    let given = chars_of(path);
    match find_first(&shape, &mark) {
        Some(p) => {
            let before: usize = p;
            let after: usize = shape.len() - p - 6;
            if after > given.len() || before > given.len() - after {
                return None;
            }
            let head = path.substring_char(0, before).to_string();
            let wanted_head = pattern.substring_char(0, before).to_string();
            let tail = path.substring_char(given.len() - after, given.len()).to_string();
            let wanted_tail = pattern.substring_char(p + 6, shape.len()).to_string();
            proof {
                assert(head@ =~= path@.take(before as int));
                assert(wanted_head@ =~= pattern@.take(p as int));
                assert(tail@ =~= path@.skip(given@.len() - after));
                assert(wanted_tail@ =~= pattern@.skip(p + 6));
            }
            if head == wanted_head && tail == wanted_tail {
                Some(path.substring_char(before, given.len() - after).to_string())
            } else {
                None
            }
        },
        None => {
            if path.to_string() == pattern.to_string() {
                Some(String::new())
            } else {
                None
            }
        },
    }
}

fn apply_rule(rule: &ValidationTargetRule, path: &str) -> (target: Option<String>)
    ensures
        text::opt_text(target) == rule_target(rule@, path@),
{
    match match_stem(rule.pattern.as_str(), path) {
        Some(stem) => Some(substitute_stem(rule.target.as_str(), stem.as_str())),
        None => None,
    }
}

proof fn lemma_extension(path: Text, i: int)
    requires
        0 <= i < path.len(),
        path[i] == '.',
        forall|j: int| i < j < path.len() ==> path[j] != '.',
    ensures
        extension(path) == Some(path.skip(i + 1)),
    decreases path.len(),
{
    if i == path.len() - 1 {
        assert(path.skip(i + 1) =~= Seq::<char>::empty());
    } else {
        lemma_extension(path.drop_last(), i);
        assert(path.drop_last().skip(i + 1).push(path.last()) =~= path.skip(i + 1));
    }
}

proof fn lemma_no_extension(path: Text)
    requires
        forall|j: int| 0 <= j < path.len() ==> path[j] != '.',
    ensures
        extension(path) is None,
    decreases path.len(),
{
    if path.len() > 0 {
        lemma_no_extension(path.drop_last());
    }
}

/// The text after the last dot of `path`, if there is a dot.
pub fn file_extension(path: &str) -> (ext: Option<String>)
    ensures
        text::opt_text(ext) == extension(path@),
{
    let chars = chars_of(path);
    let mut i: usize = chars.len();
    while i > 0
        invariant
            chars@ == path@,
            i <= chars.len(),
            forall|j: int| i <= j < path@.len() ==> path@[j] != '.',
        decreases i,
    {
        if chars[i - 1] == '.' {
            proof {
                lemma_extension(path@, i - 1);
                assert(path@.skip(i as int) =~= path@.subrange(i as int, path@.len() as int));
            }
            return Some(path.substring_char(i, chars.len()).to_string());
        }
        i -= 1;
    }
    proof {
        lemma_no_extension(path@);
    }
    None
}

/// The file that validates `path`, if the plugins know one.
pub fn derive_validation_target(plugins: &Vec<LanguageSpec>, path: &str) -> (target: Option<String>)
    ensures
        text::opt_text(target) == validation_target(
            plugins@.map_values(|l: LanguageSpec| l@),
            path@,
        ),
{
    let ghost views = plugins@.map_values(|l: LanguageSpec| l@);
    let ext = file_extension(path);
    let mut i: usize = 0;
    while i < plugins.len()
        invariant
            i <= plugins.len(),
            views == plugins@.map_values(|l: LanguageSpec| l@),
            text::opt_text(ext) == extension(path@),
            search::first_some(i as nat, plugin_check(views, path@)) is None,
        decreases plugins.len() - i,
    {
        assert(views[i as int] == plugins@[i as int]@);
        let covered = match &ext {
            Some(e) => contains_text(&plugins[i].extensions, e),
            None => false,
        };
        if covered {
            let rules = &plugins[i].validation_targets;
            let ghost rule_views = views[i as int].validation_targets;
            let mut k: usize = 0;
            while k < rules.len()
                invariant
                    i < plugins.len(),
                    k <= rules.len(),
                    views == plugins@.map_values(|l: LanguageSpec| l@),
                    rules == plugins@[i as int].validation_targets,
                    rule_views == rules@.map_values(|r: ValidationTargetRule| r@),
                    rule_views == views[i as int].validation_targets,
                    covers(views[i as int], path@),
                    search::first_some(i as nat, plugin_check(views, path@)) is None,
                    search::first_some(k as nat, rule_check(rule_views, path@)) is None,
                decreases rules.len() - k,
            {
                assert(rule_views[k as int] == rules@[k as int]@);
                let target = apply_rule(&rules[k], path);
                if target.is_some() {
                    proof {
                        search::lemma_first_some_extends(
                            (k + 1) as nat,
                            rule_views.len(),
                            rule_check(rule_views, path@),
                        );
                        search::lemma_first_some_extends(
                            (i + 1) as nat,
                            views.len(),
                            plugin_check(views, path@),
                        );
                    }
                    return target;
                }
                k += 1;
            }
        }
        i += 1;
    }
    None
}

} // verus!
