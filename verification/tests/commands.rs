use agentrt_console::db::{migrate_args, new_migration_args, rollback_args, status_args};
use agentrt_console::deploy::{format_uptime, health_line};
use agentrt_console::llm::{default_provider_suffix, find_provider_model, group_by_provider, LlmError, LlmModelEntry, LlmModelList};
use agentrt_console::market::{install_outcome, publish_target, MarketError, MarketInstallResult};
use agentrt_console::config::YamlNode;
use agentrt_console::prompt::{description, find_prompt, prompt_file, template_name};
use agentrt_console::run::{classify_input, new_session_id, run_meta, session_id_at, session_id_from_clock, InputAction};

#[test]
fn uptime_is_shown_in_the_largest_units() {
    assert_eq!(format_uptime(0), "0s");
    assert_eq!(format_uptime(59), "59s");
    assert_eq!(format_uptime(60), "1m 0s");
    assert_eq!(format_uptime(3599), "59m 59s");
    assert_eq!(format_uptime(3600), "1h 0m");
    assert_eq!(format_uptime(7325), "2h 2m");
    assert_eq!(format_uptime(90061), "25h 1m");
}

#[test]
fn health_line_reports_state_and_uptime() {
    assert_eq!(health_line("healthy", true, 3725), "healthy, running | uptime 1h 2m");
    assert_eq!(health_line("degraded", false, 5), "degraded, not running | uptime 5s");
}

#[test]
fn session_ids_are_hex_milliseconds() {
    assert_eq!(session_id_at(0), "sess_cli_0");
    assert_eq!(session_id_at(255), "sess_cli_ff");
    assert_eq!(session_id_at(1_700_000_000_000), "sess_cli_18bcfe56800");
    let id = new_session_id();
    assert!(id.starts_with("sess_cli_"));
    assert!(id["sess_cli_".len()..].chars().all(|c| c.is_ascii_hexdigit()));
}

#[test]
fn clock_readings_become_session_ids() {
    assert_eq!(session_id_from_clock(None), "sess_cli_0");
    assert_eq!(session_id_from_clock(Some(4096)), "sess_cli_1000");
    assert_ne!(session_id_from_clock(Some(16)), session_id_from_clock(Some(1)));
    let ids: Vec<String> = (0u128..300).map(session_id_at).collect();
    for (i, a) in ids.iter().enumerate() {
        for b in &ids[i + 1..] {
            assert_ne!(a, b);
        }
    }
}

#[test]
fn typed_lines_are_classified() {
    assert!(matches!(classify_input("   \n"), InputAction::Skip));
    assert!(matches!(classify_input("exit"), InputAction::Exit));
    assert!(matches!(classify_input("  QuIt \r\n"), InputAction::Exit));
    assert!(matches!(classify_input("exiting"), InputAction::Send(ref p) if p == "exiting"));
    assert!(matches!(classify_input("  hello world \n"), InputAction::Send(ref p) if p == "hello world"));
}

#[test]
fn run_meta_lists_known_parts() {
    assert_eq!(run_meta(Some(120), Some("0.001500"), "sess_a"), "Tokens: 120 | Cost: $0.001500 | Session: sess_a");
    assert_eq!(run_meta(None, None, "sess_b"), "Session: sess_b");
    assert_eq!(run_meta(Some(0), None, "s"), "Tokens: 0 | Session: s");
}

#[test]
fn prompts_are_found_yaml_first() {
    assert_eq!(prompt_file("greet", "yml"), "prompts/greet.yml");
    for (n, e) in [("greet", "yaml"), ("/tmp/abs", "yml"), ("sub/dir", "yaml")] {
        let want = std::path::Path::new("prompts").join(format!("{}.{}", n, e));
        assert_eq!(prompt_file(n, e), want.to_string_lossy());
    }
    assert_eq!(find_prompt("greet", true, true).ok().unwrap(), "prompts/greet.yaml");
    assert_eq!(find_prompt("greet", false, true).ok().unwrap(), "prompts/greet.yml");
    let e = find_prompt("nope", false, false).err().unwrap();
    assert_eq!(e.message(), "Prompt template 'nope' not found in prompts/ directory.");
}

#[test]
fn template_files_are_recognised_by_extension() {
    assert_eq!(template_name("system.yaml"), Some("system".to_string()));
    assert_eq!(template_name("a.b.yml"), Some("a.b".to_string()));
    assert_eq!(template_name("notes.txt"), None);
    assert_eq!(template_name(".yaml"), None);
    assert_eq!(template_name("yaml"), None);
    assert_eq!(template_name("x.YAML"), None);
}

#[test]
fn descriptions_come_from_the_first_describing_line() {
    assert_eq!(description("name: x\ndescription:  Says hello  \n"), Some("Says hello".to_string()));
    assert_eq!(description("# Greeting prompt\ndescription: other\n"), Some("Greeting prompt".to_string()));
    assert_eq!(description("#\n##   \ndescription:\n  ## Real one\r\n"), Some("Real one".to_string()));
    assert_eq!(description("description:description: twice"), Some("twice".to_string()));
    assert_eq!(description("name: x\ntemplate: y\n"), None);
    assert_eq!(description(""), None);
}

fn entry(name: &str, provider: &str, default: bool) -> LlmModelEntry {
    LlmModelEntry { name: name.to_string(), provider: provider.to_string(), default }
}

#[test]
fn provider_model_lookup_ignores_ascii_case() {
    let list = LlmModelList {
        models: vec![entry("large-1", "openai", true), entry("sonnet-x", "Acme", false), entry("small-1", "OpenAI", false)],
        default_model: "large-1".to_string(),
        default_provider: "openai".to_string(),
    };
    assert_eq!(find_provider_model(&list, "OPENAI").ok().unwrap(), "large-1");
    assert_eq!(find_provider_model(&list, "ACME").ok().unwrap(), "sonnet-x");
    let e = find_provider_model(&list, "mistral").err().unwrap();
    assert!(matches!(e, LlmError::NoModels { ref provider } if provider == "mistral"));
    assert_eq!(e.message(), "Provider 'mistral' has no configured models");
}

#[test]
fn default_provider_note() {
    assert_eq!(default_provider_suffix(""), "");
    assert_eq!(default_provider_suffix("openai"), " [openai]");
}

#[test]
fn models_are_grouped_by_sorted_provider() {
    let models = vec![
        entry("m1", "zeta", false),
        entry("m2", "alpha", true),
        entry("m3", "zeta", false),
        entry("m4", "Beta", false),
        entry("m5", "alpha", false),
    ];
    let groups = group_by_provider(&models);
    let shape: Vec<(String, Vec<usize>)> = groups.iter().map(|g| (g.provider.clone(), g.models.clone())).collect();
    assert_eq!(
        shape,
        vec![
            ("Beta".to_string(), vec![3]),
            ("alpha".to_string(), vec![1, 4]),
            ("zeta".to_string(), vec![0, 2]),
        ]
    );
    assert!(group_by_provider(&vec![]).is_empty());
}

#[test]
fn install_replies_are_interpreted() {
    let ok = MarketInstallResult {
        status: "installed".to_string(),
        agent_id: Some("a-1".to_string()),
        installed_version: None,
        message: None,
        install_path: Some("/opt/agents/a-1".to_string()),
    };
    let rep = install_outcome(ok, "community/code-agent").ok().unwrap();
    assert_eq!(rep.installed, "community/code-agent");
    assert_eq!(rep.agent_id, Some("a-1".to_string()));
    assert_eq!(rep.install_path, Some("/opt/agents/a-1".to_string()));
    let versioned = MarketInstallResult {
        status: "installed".to_string(),
        agent_id: None,
        installed_version: Some("1.2.0".to_string()),
        message: None,
        install_path: None,
    };
    assert_eq!(install_outcome(versioned, "p").ok().unwrap().installed, "1.2.0");
    let failed = MarketInstallResult {
        status: "failed".to_string(),
        agent_id: None,
        installed_version: None,
        message: None,
        install_path: None,
    };
    let e = install_outcome(failed, "pkg").err().unwrap();
    assert_eq!(e.message(), "Failed to install 'pkg': unknown error");
    let denied = MarketInstallResult {
        status: "error".to_string(),
        agent_id: None,
        installed_version: None,
        message: Some("not found".to_string()),
        install_path: None,
    };
    assert_eq!(install_outcome(denied, "pkg").err().unwrap().message(), "Failed to install 'pkg': not found");
}

fn manifest(entries: Vec<(&str, YamlNode<i64>)>) -> YamlNode<i64> {
    YamlNode::Mapping(entries.into_iter().map(|(k, v)| (YamlNode::Str(k.to_string()), v)).collect())
}

#[test]
fn publish_target_needs_a_name() {
    let m = manifest(vec![("name", YamlNode::Str("main-agent".to_string())), ("version", YamlNode::Str("0.1.0".to_string()))]);
    assert_eq!(publish_target(&m).ok().unwrap(), ("main-agent".to_string(), "0.1.0".to_string()));
    let no_version = manifest(vec![("name", YamlNode::Str("a".to_string())), ("version", YamlNode::Other(1))]);
    assert_eq!(publish_target(&no_version).ok().unwrap(), ("a".to_string(), String::new()));
    let e = publish_target(&manifest(vec![("name", YamlNode::Str(String::new()))])).err().unwrap();
    assert!(matches!(e, MarketError::MissingName));
    assert_eq!(e.message(), "agents/main.agent.yaml is missing the 'name' field");
    assert!(publish_target(&YamlNode::<i64>::Other(0)).is_err());
}

#[test]
fn migration_script_arguments() {
    assert_eq!(status_args(), vec!["status"]);
    assert_eq!(migrate_args(true, true), vec!["migrate", "--dry-run"]);
    assert_eq!(migrate_args(false, true), vec!["migrate", "--force"]);
    assert_eq!(migrate_args(false, false), vec!["migrate"]);
    assert_eq!(rollback_args(false), None);
    assert_eq!(rollback_args(true), Some(vec!["rollback".to_string(), "--force".to_string()]));
    assert_eq!(new_migration_args(), vec!["new"]);
}
