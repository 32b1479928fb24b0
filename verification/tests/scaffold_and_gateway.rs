use agentrt_console::gateway::{
    health_url, normalize_base_url, optional_field, rpc_error_message, rpc_url, unreachable_message, user_agent,
    HealthResponse,
};
use agentrt_console::scaffold::{agent_plan, init_project, join, plugin_plan, prompt_plan, skill_plan, tool_plan};
use agentrt_console::templates::{AGENT_DEFINITION, PROJECT_CONFIG, SKILL_DEFINITION};
use agentrt_console::text::{is_blank, replace, split, trimmed};

#[test]
fn test_init_creates_directory_structure() {
    let plan = init_project("test-project", false).ok().unwrap();
    assert_eq!(
        plan.dirs,
        vec![
            "test-project",
            "test-project/agents",
            "test-project/prompts",
            "test-project/tools",
            "test-project/hooks",
            "test-project/skills",
            "test-project/plugins",
            "test-project/tests",
        ]
    );
    let paths: Vec<&str> = plan.files.iter().map(|f| f.path.as_str()).collect();
    assert_eq!(
        paths,
        vec![
            "test-project/agentos.yaml",
            "test-project/agents/main.agent.yaml",
            "test-project/prompts/system.yaml",
            "test-project/tools/custom.py",
            "test-project/hooks/audit.py",
            "test-project/.gitignore",
        ]
    );
}

#[test]
fn test_init_rejects_existing_directory() {
    let e = init_project("existing-project", true).err().unwrap();
    assert!(e.message().contains("already exists"));
    assert_eq!(e.message(), "Directory 'existing-project' already exists. Choose a different project name.");
}

#[test]
fn test_init_creates_config_file() {
    let plan = init_project("cfg-test", false).ok().unwrap();
    let config = plan.files.iter().find(|f| f.path == "cfg-test/agentos.yaml").unwrap();
    assert!(config.content.contains("version:"));
    assert!(config.content.contains("kernel:"));
    assert_eq!(config.content, PROJECT_CONFIG);
}

#[test]
fn paths_join_like_path_join() {
    assert_eq!(join("proj", "agents"), "proj/agents");
    assert_eq!(join("proj/", "agents"), "proj/agents");
    assert_eq!(join("", "agents"), "agents");
    for d in ["proj", "proj/", "", "/abs/p", "a//"] {
        assert_eq!(join(d, "agents"), std::path::Path::new(d).join("agents").to_string_lossy());
    }
}

#[test]
fn test_create_agent() {
    let p = agent_plan("my-agent");
    assert_eq!(p.dir, "agents");
    assert_eq!(p.path, "agents/my-agent.agent.yaml");
    assert!(p.content.contains("name:"));
    assert!(p.content.contains("my-agent"));
    assert!(!p.content.contains("main-agent"));
    assert_eq!(p.content, AGENT_DEFINITION.replace("main-agent", "my-agent"));
}

#[test]
fn test_create_tool() {
    let p = tool_plan("my-tool");
    assert_eq!(p.dir, "tools");
    assert_eq!(p.path, "tools/my_tool.py");
    assert!(p.content.contains("my_tool"));
    assert!(!p.content.contains("custom_tool"));
    assert_eq!(tool_plan("Web-Search").path, "tools/web_search.py");
}

#[test]
fn test_create_plugin() {
    let p = plugin_plan("my-plugin");
    assert_eq!(p.path, "plugins/my_plugin.py");
    assert!(p.content.contains("my_plugin"));
}

#[test]
fn test_create_prompt() {
    let p = prompt_plan("my-prompt");
    assert_eq!(p.path, "prompts/my-prompt.yaml");
    assert!(p.content.contains("my-prompt"));
    assert!(!p.content.contains("example-prompt"));
}

#[test]
fn test_create_skill() {
    let p = skill_plan("my-skill");
    assert_eq!(p.dir, "skills");
    assert_eq!(p.path, "skills/my-skill.md");
    assert_eq!(p.content, SKILL_DEFINITION);
}

#[test]
fn gateway_endpoints() {
    assert_eq!(normalize_base_url("http://localhost:8080///"), "http://localhost:8080");
    assert_eq!(normalize_base_url("http://custom:9090"), "http://custom:9090");
    assert_eq!(normalize_base_url("/"), "");
    let once = normalize_base_url("http://h:1//");
    assert_eq!(normalize_base_url(&once), once);
    assert!(!once.ends_with('/'));
    assert_eq!(rpc_url("http://h:1"), "http://h:1/");
    assert_eq!(health_url("http://h:1"), "http://h:1/health");
    assert_eq!(user_agent("0.1.16"), "agentrt-console/0.1.16");
    assert_eq!(unreachable_message("http://x"), "Cannot connect to AgentRT gateway at http://x. Is it running?");
}

#[test]
fn rpc_errors_name_the_method() {
    assert_eq!(rpc_error_message("llm.complete", Some("bad model")), "llm.complete: bad model");
    assert_eq!(rpc_error_message("info.system", None), "info.system: unknown error");
}

#[test]
fn request_fields_leave_out_empty_values() {
    assert_eq!(optional_field(Some("")), None);
    assert_eq!(optional_field(Some("large-2")), Some("large-2".to_string()));
    assert_eq!(optional_field(None), None);
}

#[test]
fn health_summary() {
    let h = HealthResponse { status: "ok".to_string(), version: Some("1.2".to_string()) };
    assert_eq!(h.summary(), "Gateway: ok (v1.2)");
    let h = HealthResponse { status: "degraded".to_string(), version: None };
    assert_eq!(h.summary(), "Gateway: degraded (vunknown)");
}

#[test]
fn text_helpers_match_std() {
    for s in ["", "  a b  ", "\u{3000}x\u{85}", "\t\n", "abc"] {
        assert_eq!(trimmed(s), s.trim());
        assert_eq!(is_blank(s), s.trim().is_empty());
    }
    for (s, p, r) in [("aaa", "aa", "b"), ("a-b-c", "-", "_"), ("xyz", "q", "w"), ("main-agent main-agent", "main-agent", "n")] {
        assert_eq!(replace(s, p, r), s.replace(p, r));
    }
    for s in ["a.b.c", "", ".", "a..b", "abc."] {
        let want: Vec<String> = s.split('.').map(|x| x.to_string()).collect();
        assert_eq!(split(s, '.'), want);
    }
}
