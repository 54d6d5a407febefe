use vstd::prelude::*;

verus! {

/// Default model override used by spawned sub-agents.
pub const DEFAULT_SUBAGENT_MODEL: &'static str = "gpt-5.2";

/// Whether sub-agents force-enable reasoning summaries.
pub const DEFAULT_SUBAGENT_SUPPORTS_REASONING_SUMMARIES: bool = true;

/// Description of the worker role in the tool specs.
pub const WORKER_DESCRIPTION: &'static str = r#"Use for execution and production work.
Typical tasks:
- Implement part of a feature
- Fix tests or bugs
- Split large refactors into independent chunks
Rules:
- Explicitly assign **ownership** of the task (files / responsibility).
- Always tell workers they are **not alone in the codebase**, and they should ignore edits made by others without touching them"#;

/// Description of the explorer role in the tool specs.
pub const EXPLORER_DESCRIPTION: &'static str = r#"Use `explorer` for all codebase questions.
Explorers are fast and authoritative.
Always prefer them over manual search or file reading.
Rules:
- Ask explorers first and precisely.
- Do not re-read or re-search code they cover.
- Trust explorer results without verification.
- Run explorers in parallel when useful.
- Reuse existing explorers for related questions.
                "#;

/// How much reasoning effort a model spends.
#[derive(Debug, Clone, Copy, PartialEq, Eq, Structural)]
pub enum ReasoningEffort {
    /// No reasoning at all.
    Disabled,
    Minimal,
    Low,
    Medium,
    High,
    XHigh,
}

/// How verbose a model's answers are.
#[derive(Debug, Clone, Copy, PartialEq, Eq, Structural)]
pub enum Verbosity {
    Low,
    Medium,
    High,
}

/// How much of its reasoning a model summarizes.
#[derive(Debug, Clone, Copy, PartialEq, Eq, Structural)]
pub enum ReasoningSummary {
    Auto,
    Concise,
    Detailed,
    /// No summary at all.
    Disabled,
}

/// The kind of sandbox that commands run in.
#[derive(Debug, Clone, Copy, PartialEq, Eq, Structural)]
pub enum SandboxPolicy {
    ReadOnly,
    WorkspaceWrite,
    DangerFullAccess,
    ExternalSandbox,
}

/// The part of an agent's configuration that a role can override.
pub struct Config {
    pub base_instructions: Option<String>,
    pub model: Option<String>,
    pub model_reasoning_effort: Option<ReasoningEffort>,
    pub model_verbosity: Option<Verbosity>,
    pub model_reasoning_summary: ReasoningSummary,
    pub model_supports_reasoning_summaries: Option<bool>,
    pub sandbox_policy: SandboxPolicy,
}

/// A config with its strings taken as sequences of characters.
pub struct ConfigView {
    pub base_instructions: Option<Seq<char>>,
    pub model: Option<Seq<char>>,
    pub model_reasoning_effort: Option<ReasoningEffort>,
    pub model_verbosity: Option<Verbosity>,
    pub model_reasoning_summary: ReasoningSummary,
    pub model_supports_reasoning_summaries: Option<bool>,
    pub sandbox_policy: SandboxPolicy,
}

/// The view of an optional string.
pub open spec fn opt_string_view(s: Option<String>) -> Option<Seq<char>> {
    match s {
        Some(s) => Some(s@),
        None => None,
    }
}

/// The view of an optional string slice.
pub open spec fn opt_str_view(s: Option<&'static str>) -> Option<Seq<char>> {
    match s {
        Some(s) => Some(s@),
        None => None,
    }
}

impl View for Config {
    type V = ConfigView;

    open spec fn view(&self) -> ConfigView {
        ConfigView {
            base_instructions: opt_string_view(self.base_instructions),
            model: opt_string_view(self.model),
            model_reasoning_effort: self.model_reasoning_effort,
            model_verbosity: self.model_verbosity,
            model_reasoning_summary: self.model_reasoning_summary,
            model_supports_reasoning_summaries: self.model_supports_reasoning_summaries,
            sandbox_policy: self.sandbox_policy,
        }
    }
}

/// Hard-coded agent role selection used when spawning sub-agents.
#[derive(Debug, Clone, Copy, PartialEq, Eq, Structural)]
pub enum AgentRole {
    /// Inherit the parent agent's configuration unchanged.
    Default,
    /// Coordination-only agent that delegates to workers.
    Orchestrator,
    /// Task-executing agent with a fixed model override.
    Worker,
    /// Task-executing agent with a fixed model override.
    Explorer,
}

/// Immutable profile data that drives per-agent configuration overrides.
#[derive(Debug, Clone, Copy, PartialEq, Eq)]
pub struct AgentProfile {
    /// Optional base instructions override.
    pub base_instructions: Option<&'static str>,
    /// Optional model override.
    pub model: Option<&'static str>,
    /// Optional reasoning effort override.
    pub reasoning_effort: Option<ReasoningEffort>,
    /// Optional verbosity override.
    pub verbosity: Option<Verbosity>,
    /// Optional reasoning summary override.
    pub reasoning_summary: Option<ReasoningSummary>,
    /// Optional override to force-enable reasoning summaries.
    pub supports_reasoning_summaries: Option<bool>,
    /// Whether to force a read-only sandbox policy.
    pub read_only: bool,
    /// Description to include in the tool specs.
    pub description: &'static str,
}

/// The profile that overrides nothing.
pub open spec fn empty_profile() -> AgentProfile {
    AgentProfile {
        base_instructions: None,
        model: None,
        reasoning_effort: None,
        verbosity: None,
        reasoning_summary: None,
        supports_reasoning_summaries: None,
        read_only: false,
        description: "",
    }
}

impl Default for AgentProfile {
    fn default() -> (r: Self)
        ensures
            r == empty_profile(),
    {
        AgentProfile {
            base_instructions: None,
            model: None,
            reasoning_effort: None,
            verbosity: None,
            reasoning_summary: None,
            supports_reasoning_summaries: None,
            read_only: false,
            description: "",
        }
    }
}

/// The profile of a sub-agent with the default model overrides.
pub open spec fn subagent_profile(
    base_instructions: Option<&'static str>,
    description: &'static str,
) -> AgentProfile {
    AgentProfile {
        base_instructions,
        model: Some(DEFAULT_SUBAGENT_MODEL),
        reasoning_effort: Some(ReasoningEffort::XHigh),
        verbosity: Some(Verbosity::High),
        reasoning_summary: Some(ReasoningSummary::Detailed),
        supports_reasoning_summaries: Some(DEFAULT_SUBAGENT_SUPPORTS_REASONING_SUMMARIES),
        read_only: false,
        description,
    }
}

/// The description of each role in the tool specs.
pub open spec fn role_description(role: AgentRole) -> &'static str {
    match role {
        AgentRole::Worker => WORKER_DESCRIPTION,
        AgentRole::Explorer => EXPLORER_DESCRIPTION,
        _ => "",
    }
}

/// The hard-coded profile of each role, where the orchestrator's base
/// instructions are `orchestrator_instructions`.
pub open spec fn role_profile(role: AgentRole, orchestrator_instructions: &'static str) -> AgentProfile {
    match role {
        AgentRole::Default => empty_profile(),
        AgentRole::Orchestrator => subagent_profile(Some(orchestrator_instructions), ""),
        AgentRole::Worker => subagent_profile(None, WORKER_DESCRIPTION),
        AgentRole::Explorer => subagent_profile(None, EXPLORER_DESCRIPTION),
    }
}

/// `config` with every override that `profile` carries applied to it.
pub open spec fn apply_profile(config: ConfigView, profile: AgentProfile) -> ConfigView {
    ConfigView {
        base_instructions: match profile.base_instructions {
            Some(s) => Some(s@),
            None => config.base_instructions,
        },
        model: match profile.model {
            Some(s) => Some(s@),
            None => config.model,
        },
        model_reasoning_effort: match profile.reasoning_effort {
            Some(e) => Some(e),
            None => config.model_reasoning_effort,
        },
        model_verbosity: match profile.verbosity {
            Some(v) => Some(v),
            None => config.model_verbosity,
        },
        model_reasoning_summary: match profile.reasoning_summary {
            Some(s) => s,
            None => config.model_reasoning_summary,
        },
        model_supports_reasoning_summaries: match profile.supports_reasoning_summaries {
            Some(b) => Some(b),
            None => config.model_supports_reasoning_summaries,
        },
        sandbox_policy: if profile.read_only {
            SandboxPolicy::ReadOnly
        } else {
            config.sandbox_policy
        },
    }
}

/// An owned copy of `s`.
fn owned(s: &str) -> (r: String)
    ensures
        r@ == s@,
{
    s.to_owned()
}

impl AgentRole {
    /// Returns the hard-coded profile for this role. The orchestrator's base
    /// instructions are `orchestrator_instructions`, the text of its agent
    /// template, which the caller reads.
    pub fn profile(self, orchestrator_instructions: &'static str) -> (r: AgentProfile)
        ensures
            r == role_profile(self, orchestrator_instructions),
    {
        match self {
            AgentRole::Default => AgentProfile::default(),
            AgentRole::Orchestrator => AgentProfile {
                base_instructions: Some(orchestrator_instructions),
                model: Some(DEFAULT_SUBAGENT_MODEL),
                reasoning_effort: Some(ReasoningEffort::XHigh),
                verbosity: Some(Verbosity::High),
                reasoning_summary: Some(ReasoningSummary::Detailed),
                supports_reasoning_summaries: Some(DEFAULT_SUBAGENT_SUPPORTS_REASONING_SUMMARIES),
                ..AgentProfile::default()
            },
            AgentRole::Worker => AgentProfile {
                model: Some(DEFAULT_SUBAGENT_MODEL),
                reasoning_effort: Some(ReasoningEffort::XHigh),
                verbosity: Some(Verbosity::High),
                reasoning_summary: Some(ReasoningSummary::Detailed),
                supports_reasoning_summaries: Some(DEFAULT_SUBAGENT_SUPPORTS_REASONING_SUMMARIES),
                description: WORKER_DESCRIPTION,
                ..AgentProfile::default()
            },
            AgentRole::Explorer => AgentProfile {
                model: Some(DEFAULT_SUBAGENT_MODEL),
                reasoning_effort: Some(ReasoningEffort::XHigh),
                verbosity: Some(Verbosity::High),
                reasoning_summary: Some(ReasoningSummary::Detailed),
                supports_reasoning_summaries: Some(DEFAULT_SUBAGENT_SUPPORTS_REASONING_SUMMARIES),
                description: EXPLORER_DESCRIPTION,
                ..AgentProfile::default()
            },
        }
    }

    /// Applies this role's profile onto the provided config, with
    /// `orchestrator_instructions` as the orchestrator's base instructions.
    pub fn apply_to_config(self, config: &mut Config, orchestrator_instructions: &'static str) -> (r:
        Result<(), String>)
        ensures
            r is Ok,
            final(config)@ == apply_profile(
                old(config)@,
                role_profile(self, orchestrator_instructions),
            ),
            self != AgentRole::Default ==> {
                &&& final(config)@.model == Some(DEFAULT_SUBAGENT_MODEL@)
                &&& final(config).model_reasoning_effort == Some(ReasoningEffort::XHigh)
                &&& final(config).model_verbosity == Some(Verbosity::High)
                &&& final(config).model_reasoning_summary == ReasoningSummary::Detailed
                &&& final(config).model_supports_reasoning_summaries == Some(true)
            },
            self == AgentRole::Orchestrator ==> final(config)@.base_instructions == Some(
                orchestrator_instructions@,
            ),
            self != AgentRole::Orchestrator ==> final(config)@.base_instructions == old(
                config,
            )@.base_instructions,
            final(config).sandbox_policy == old(config).sandbox_policy,
            self == AgentRole::Default ==> final(config)@ == old(config)@,
    {
        let profile = self.profile(orchestrator_instructions);
        if let Some(base_instructions) = profile.base_instructions {
            config.base_instructions = Some(owned(base_instructions));
        }
        if let Some(model) = profile.model {
            config.model = Some(owned(model));
        }
        if let Some(reasoning_effort) = profile.reasoning_effort {
            config.model_reasoning_effort = Some(reasoning_effort);
        }
        if let Some(verbosity) = profile.verbosity {
            config.model_verbosity = Some(verbosity);
        }
        if let Some(reasoning_summary) = profile.reasoning_summary {
            config.model_reasoning_summary = reasoning_summary;
        }
        if let Some(supports_reasoning_summaries) = profile.supports_reasoning_summaries {
            config.model_supports_reasoning_summaries = Some(supports_reasoning_summaries);
        }
        if profile.read_only {
            config.sandbox_policy = SandboxPolicy::ReadOnly;
        }
        Ok(())
    }
}

/// The roles in the order of the JSON schema enum.
pub open spec fn all_roles_spec() -> Seq<AgentRole> {
    seq![AgentRole::Default, AgentRole::Orchestrator, AgentRole::Worker, AgentRole::Explorer]
}

/// The JSON schema enum entry of a role whose JSON form is `name`.
pub open spec fn enum_value_entry(name: Seq<char>, description: Seq<char>) -> Seq<char> {
    "{ \"name\": "@ + name + (if description.len() > 0 {
        ", \"description\": "@ + description
    } else {
        Seq::empty()
    }) + "}"@
}

/// The entries of the roles whose JSON form is known, in order.
pub open spec fn enum_value_entries(
    roles: Seq<AgentRole>,
    names: Seq<Option<Seq<char>>>,
) -> Seq<Seq<char>>
    decreases roles.len(),
{
    if roles.len() == 0 || names.len() == 0 {
        Seq::empty()
    } else {
        let rest = enum_value_entries(roles.drop_last(), names.drop_last());
        match names.last() {
            Some(name) => rest.push(enum_value_entry(name, role_description(roles.last())@)),
            None => rest,
        }
    }
}

/// The views of a list of optional strings.
pub open spec fn opt_string_views(names: Seq<Option<String>>) -> Seq<Option<Seq<char>>> {
    names.map_values(|n: Option<String>| opt_string_view(n))
}

/// The views of a list of strings.
pub open spec fn string_views(strings: Seq<String>) -> Seq<Seq<char>> {
    strings.map_values(|s: String| s@)
}

impl AgentRole {
    /// The description of this role in the tool specs.
    fn description(self) -> (r: &'static str)
        ensures
            r == role_description(self),
            forall|i: &'static str| r == #[trigger] role_profile(self, i).description,
    {
        match self {
            AgentRole::Worker => WORKER_DESCRIPTION,
            AgentRole::Explorer => EXPLORER_DESCRIPTION,
            _ => "",
        }
    }

    /// All roles, in the order of the JSON schema enum.
    pub fn all_roles() -> (r: Vec<AgentRole>)
        ensures
            r@ == all_roles_spec(),
    {
        let r = vec![AgentRole::Default, AgentRole::Orchestrator, AgentRole::Worker, AgentRole::Explorer];
        assert(r@ =~= all_roles_spec());
        r
    }

    /// The JSON schema enum entry of this role, given its JSON form.
    pub fn enum_value(self, name: &str) -> (r: String)
        ensures
            r@ == enum_value_entry(name@, role_description(self)@),
            forall|i: &'static str|
                r@ == enum_value_entry(name@, (#[trigger] role_profile(self, i)).description@),
    {
        let description = self.description();
        let mut r = owned("{ \"name\": ");
        r.append(name);
        if !description.is_empty() {
            r.append(", \"description\": ");
            r.append(description);
        } else {
            assert(r@ + Seq::<char>::empty() =~= r@);
        }
        r.append("}");
        r
    }

    /// The JSON schema enum values of all roles, given the JSON form of each
    /// role of `all_roles` in the same order; a role whose JSON form is missing
    /// is left out.
    pub fn enum_values_from_json(names: &Vec<Option<String>>) -> (r: Vec<String>)
        requires
            names@.len() == all_roles_spec().len(),
        ensures
            string_views(r@) == enum_value_entries(all_roles_spec(), opt_string_views(names@)),
    {
        let roles = AgentRole::all_roles();
        let ghost rs = roles@;
        let ghost ns = opt_string_views(names@);
        let mut out: Vec<String> = Vec::new();
        let n = roles.len();
        for i in 0..n
            invariant
                n == rs.len(),
                rs == roles@,
                rs == all_roles_spec(),
                ns == opt_string_views(names@),
                names@.len() == n,
                string_views(out@) == enum_value_entries(rs.take(i as int), ns.take(i as int)),
        {
            assert(rs.take(i + 1).drop_last() =~= rs.take(i as int));
            assert(ns.take(i + 1).drop_last() =~= ns.take(i as int));
            assert(rs.take(i + 1).last() == rs[i as int]);
            assert(ns.take(i + 1).last() == ns[i as int]);
            let ghost before = out@;
            match &names[i] {
                Some(name) => {
                    let entry = roles[i].enum_value(name.as_str());
                    out.push(entry);
                    assert(string_views(out@) =~= string_views(before).push(entry@));
                },
                None => {},
            }
        }
        assert(rs.take(n as int) =~= rs);
        assert(ns.take(n as int) =~= ns);
        out
    }
}

} // verus!
