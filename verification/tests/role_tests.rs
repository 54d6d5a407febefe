use codex_plan::role::AgentRole;
use codex_plan::role::Config;
use codex_plan::role::ReasoningEffort;
use codex_plan::role::ReasoningSummary;
use codex_plan::role::SandboxPolicy;
use codex_plan::role::Verbosity;
use codex_plan::role::DEFAULT_SUBAGENT_MODEL;
use codex_plan::role::EXPLORER_DESCRIPTION;
use codex_plan::role::WORKER_DESCRIPTION;

const ORCHESTRATOR_INSTRUCTIONS: &str = "Coordinate the sub-agents.";

fn parent_config() -> Config {
    Config {
        base_instructions: Some("parent instructions".to_string()),
        model: Some("parent-model".to_string()),
        model_reasoning_effort: Some(ReasoningEffort::Low),
        model_verbosity: None,
        model_reasoning_summary: ReasoningSummary::Auto,
        model_supports_reasoning_summaries: None,
        sandbox_policy: SandboxPolicy::WorkspaceWrite,
    }
}

fn assert_same_config(a: &Config, b: &Config) {
    assert_eq!(a.base_instructions, b.base_instructions);
    assert_eq!(a.model, b.model);
    assert_eq!(a.model_reasoning_effort, b.model_reasoning_effort);
    assert_eq!(a.model_verbosity, b.model_verbosity);
    assert_eq!(a.model_reasoning_summary, b.model_reasoning_summary);
    assert_eq!(a.model_supports_reasoning_summaries, b.model_supports_reasoning_summaries);
    assert_eq!(a.sandbox_policy, b.sandbox_policy);
}

#[test]
fn default_role_keeps_parent_config() {
    let mut config = parent_config();
    assert_eq!(AgentRole::Default.apply_to_config(&mut config, ORCHESTRATOR_INSTRUCTIONS), Ok(()));
    assert_same_config(&config, &parent_config());
}

#[test]
fn worker_role_sets_subagent_overrides() {
    let mut config = parent_config();
    assert_eq!(AgentRole::Worker.apply_to_config(&mut config, ORCHESTRATOR_INSTRUCTIONS), Ok(()));
    assert_eq!(config.base_instructions, Some("parent instructions".to_string()));
    assert_eq!(config.model, Some("gpt-5.2".to_string()));
    assert_eq!(config.model_reasoning_effort, Some(ReasoningEffort::XHigh));
    assert_eq!(config.model_verbosity, Some(Verbosity::High));
    assert_eq!(config.model_reasoning_summary, ReasoningSummary::Detailed);
    assert_eq!(config.model_supports_reasoning_summaries, Some(true));
    assert_eq!(config.sandbox_policy, SandboxPolicy::WorkspaceWrite);
}

#[test]
fn orchestrator_role_sets_base_instructions() {
    let mut config = parent_config();
    assert_eq!(AgentRole::Orchestrator.apply_to_config(&mut config, ORCHESTRATOR_INSTRUCTIONS), Ok(()));
    assert_eq!(config.base_instructions, Some(ORCHESTRATOR_INSTRUCTIONS.to_string()));
    assert_eq!(config.model, Some(DEFAULT_SUBAGENT_MODEL.to_string()));
    assert_eq!(config.model_reasoning_summary, ReasoningSummary::Detailed);
}

#[test]
fn applying_a_role_twice_is_applying_it_once() {
    for role in AgentRole::all_roles() {
        let mut once = parent_config();
        role.apply_to_config(&mut once, ORCHESTRATOR_INSTRUCTIONS).unwrap();
        let mut twice = parent_config();
        role.apply_to_config(&mut twice, ORCHESTRATOR_INSTRUCTIONS).unwrap();
        role.apply_to_config(&mut twice, ORCHESTRATOR_INSTRUCTIONS).unwrap();
        assert_same_config(&once, &twice);
    }
}

#[test]
fn profiles_carry_descriptions() {
    assert_eq!(AgentRole::Default.profile(ORCHESTRATOR_INSTRUCTIONS).description, "");
    assert_eq!(AgentRole::Orchestrator.profile(ORCHESTRATOR_INSTRUCTIONS).description, "");
    assert_eq!(
        AgentRole::Orchestrator.profile(ORCHESTRATOR_INSTRUCTIONS).base_instructions,
        Some(ORCHESTRATOR_INSTRUCTIONS)
    );
    assert_eq!(AgentRole::Worker.profile(ORCHESTRATOR_INSTRUCTIONS).base_instructions, None);
    assert_eq!(AgentRole::Worker.profile(ORCHESTRATOR_INSTRUCTIONS).description, WORKER_DESCRIPTION);
    assert_eq!(AgentRole::Explorer.profile(ORCHESTRATOR_INSTRUCTIONS).description, EXPLORER_DESCRIPTION);
    assert!(WORKER_DESCRIPTION.starts_with("Use for execution and production work.\n"));
    assert!(EXPLORER_DESCRIPTION.starts_with("Use `explorer` for all codebase questions.\n"));
    for role in AgentRole::all_roles() {
        assert!(!role.profile(ORCHESTRATOR_INSTRUCTIONS).read_only);
    }
}

#[test]
fn enum_value_without_description_has_only_a_name() {
    assert_eq!(
        AgentRole::Default.enum_value("\"default\""),
        "{ \"name\": \"default\"}"
    );
}

#[test]
fn enum_value_with_description_appends_it() {
    assert_eq!(
        AgentRole::Worker.enum_value("\"worker\""),
        format!("{{ \"name\": \"worker\", \"description\": {WORKER_DESCRIPTION}}}")
    );
}

#[test]
fn enum_values_skip_roles_without_json_form() {
    let names = vec![
        Some("\"default\"".to_string()),
        None,
        Some("\"worker\"".to_string()),
        Some("\"explorer\"".to_string()),
    ];
    let values = AgentRole::enum_values_from_json(&names);
    assert_eq!(
        values,
        vec![
            "{ \"name\": \"default\"}".to_string(),
            format!("{{ \"name\": \"worker\", \"description\": {WORKER_DESCRIPTION}}}"),
            format!("{{ \"name\": \"explorer\", \"description\": {EXPLORER_DESCRIPTION}}}"),
        ]
    );
}

#[test]
fn all_roles_in_schema_order() {
    assert_eq!(
        AgentRole::all_roles(),
        vec![
            AgentRole::Default,
            AgentRole::Orchestrator,
            AgentRole::Worker,
            AgentRole::Explorer
        ]
    );
}
