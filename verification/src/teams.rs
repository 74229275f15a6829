//! Team configuration: who acts when, and on which files.

use vstd::prelude::*;

use crate::graph::NodeKind;
use crate::text;
use crate::text::Text;

verus! {

/// When a team acts.
#[derive(Clone, Debug, PartialEq)]
pub enum Trigger {
    /// Once, at the start of the run.
    Start,
    /// For every task that each of these teams has completed.
    AfterTeams(Vec<String>),
}

/// The mathematical value of a [`Trigger`].
pub enum TriggerView {
    Start,
    AfterTeams(Seq<Text>),
}

impl View for Trigger {
    type V = TriggerView;

    open spec fn view(&self) -> TriggerView {
        match self {
            Trigger::Start => TriggerView::Start,
            Trigger::AfterTeams(teams) => TriggerView::AfterTeams(text::texts(teams@)),
        }
    }
}

/// Maps source files to the file that validates them. `{stem}` in the pattern
/// stands for any text, and in the target for the text it stood for.
#[derive(Clone, Debug, PartialEq)]
pub struct ValidationTargetRule {
    /// The shape of the source path.
    pub pattern: String,
    /// The shape of the validating path.
    pub target: String,
}

/// The mathematical value of a [`ValidationTargetRule`].
pub struct RuleView {
    pub pattern: Text,
    pub target: Text,
}

impl View for ValidationTargetRule {
    type V = RuleView;

    open spec fn view(&self) -> RuleView {
        RuleView { pattern: self.pattern@, target: self.target@ }
    }
}

/// What the scheduler knows of a language plugin.
#[derive(Clone, Debug, PartialEq)]
pub struct LanguageSpec {
    /// File extensions the plugin covers, without the dot.
    pub extensions: Vec<String>,
    /// How to find the validating file of a source file.
    pub validation_targets: Vec<ValidationTargetRule>,
}

/// The mathematical value of a [`LanguageSpec`].
pub struct LanguageView {
    pub extensions: Seq<Text>,
    pub validation_targets: Seq<RuleView>,
}

impl View for LanguageSpec {
    type V = LanguageView;

    open spec fn view(&self) -> LanguageView {
        LanguageView {
            extensions: text::texts(self.extensions@),
            validation_targets: self.validation_targets@.map_values(|r: ValidationTargetRule| r@),
        }
    }
}

/// One configured team.
#[derive(Clone, Debug, PartialEq)]
pub struct TeamConfig {
    /// The team's name.
    pub name: String,
    /// The team's guiding document.
    pub northstar: String,
    /// The team's project adapter.
    pub adapter: String,
    /// What kind of node the team runs.
    pub kind: NodeKind,
    /// When the team acts.
    pub trigger: Trigger,
    /// The language plugins of the team's adapter.
    pub language_plugins: Vec<LanguageSpec>,
    /// The language the team works in.
    pub language: String,
    /// Whether the team writes the validating file instead of the source file.
    pub derives_target: bool,
    /// The team's worker role.
    pub worker_role: Option<String>,
}

/// The mathematical value of a [`TeamConfig`].
pub struct TeamView {
    pub name: Text,
    pub northstar: Text,
    pub adapter: Text,
    pub kind: NodeKind,
    pub trigger: TriggerView,
    pub language_plugins: Seq<LanguageView>,
    pub language: Text,
    pub derives_target: bool,
    pub worker_role: Option<Text>,
}

impl View for TeamConfig {
    type V = TeamView;

    open spec fn view(&self) -> TeamView {
        TeamView {
            name: self.name@,
            northstar: self.northstar@,
            adapter: self.adapter@,
            kind: self.kind,
            trigger: self.trigger@,
            language_plugins: self.language_plugins@.map_values(|l: LanguageSpec| l@),
            language: self.language@,
            derives_target: self.derives_target,
            worker_role: text::opt_text(self.worker_role),
        }
    }
}

/// Run-scoped policy that is constant for the lifetime of a run.
#[derive(Clone, Debug, PartialEq)]
pub struct RunConfig {
    /// Whether a distinct strong-tier model is configured.
    pub has_strong_tier: bool,
    /// Configured teams.
    pub teams: Vec<TeamConfig>,
    /// Teams that no other team waits for.
    pub terminal_teams: Vec<String>,
    /// How many nodes may be active at once.
    pub dispatch_cap: usize,
}

/// The mathematical value of a [`RunConfig`].
pub struct ConfigView {
    pub has_strong_tier: bool,
    pub teams: Seq<TeamView>,
    pub terminal_teams: Seq<Text>,
    pub dispatch_cap: usize,
}

impl View for RunConfig {
    type V = ConfigView;

    open spec fn view(&self) -> ConfigView {
        ConfigView {
            has_strong_tier: self.has_strong_tier,
            teams: self.teams@.map_values(|t: TeamConfig| t@),
            terminal_teams: text::texts(self.terminal_teams@),
            dispatch_cap: self.dispatch_cap,
        }
    }
}

/// The dispatch cap of a configuration that sets none.
pub fn default_dispatch_cap() -> (cap: usize)
    ensures
        cap == 1,
{
    1
}

impl Default for RunConfig {
    fn default() -> (config: Self)
        ensures
            config.has_strong_tier,
            config@.teams.len() == 0,
            config@.terminal_teams.len() == 0,
            config.dispatch_cap == 1,
    {
        RunConfig {
            has_strong_tier: true,
            teams: vec![],
            terminal_teams: vec![],
            dispatch_cap: default_dispatch_cap(),
        }
    }
}

/// How many nodes may be active at once: at least one.
pub open spec fn slots(config: ConfigView) -> nat {
    if config.dispatch_cap == 0 {
        1
    } else {
        config.dispatch_cap as nat
    }
}

impl RunConfig {
    /// How many nodes may be active at once: at least one.
    pub fn slots(&self) -> (n: usize)
        ensures
            n == slots(self@),
            n >= 1,
    {
        if self.dispatch_cap == 0 {
            1
        } else {
            self.dispatch_cap
        }
    }
}

} // verus!
