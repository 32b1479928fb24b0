//! The files a new project, agent, tool, plugin, prompt or skill starts from.
use vstd::prelude::*;

verus! {

/// Project configuration (`agentos.yaml`).
pub const PROJECT_CONFIG: &'static str = "# AgentRT project configuration\nversion: \"1.0\"\n\nkernel:\n  name: agentrt\n  log_level: info\n  max_concurrent_agents: 4\n\nllm:\n  default_provider: openai\n  default_model: gpt-4o-mini\n  timeout_secs: 60\n\nsecurity:\n  sandbox: true\n  allow_network: false\n  audit_log: true\n";

/// Agent definition; `main-agent` is replaced by the agent's name.
pub const AGENT_DEFINITION: &'static str = "# Agent definition\nname: main-agent\nversion: \"0.1.0\"\ndescription: The main agent of this project\nmodel: default\nsystem_prompt: prompts/system.yaml\ntools: []\nhooks: []\n";

/// System prompt of the main agent.
pub const SYSTEM_PROMPT: &'static str = "# System prompt of the main agent\nname: system\ndescription: System prompt of the main agent\ntemplate: |\n  You are a helpful assistant running on AgentRT.\n  Answer clearly and concisely.\n";

/// Example tool; `custom_tool` is replaced by the tool's name.
pub const TOOL_SOURCE: &'static str = "\"\"\"custom_tool: an AgentRT tool.\"\"\"\n\nNAME = \"custom_tool\"\nDESCRIPTION = \"Describe what custom_tool does.\"\n\n\ndef execute(arguments: dict) -> dict:\n    \"\"\"Run the tool with the given arguments and return its result.\"\"\"\n    return {\"ok\": True, \"echo\": arguments}\n";

/// Example hook.
pub const HOOK_SOURCE: &'static str = "\"\"\"audit: an AgentRT hook that records every tool call.\"\"\"\n\n\ndef on_tool_call(event: dict) -> None:\n    print(f\"[audit] {event.get('tool')} {event.get('status')}\")\n";

/// Example plugin; `my_plugin` is replaced by the plugin's name.
pub const PLUGIN_SOURCE: &'static str = "\"\"\"my_plugin: an AgentRT plugin.\"\"\"\n\nNAME = \"my_plugin\"\n\n\ndef setup(runtime) -> None:\n    \"\"\"Register the capabilities of my_plugin with the runtime.\"\"\"\n    pass\n";

/// Prompt template; `example-prompt` is replaced by the template's name.
pub const PROMPT_TEMPLATE: &'static str = "# example-prompt\nname: example-prompt\ndescription: A prompt template\nvariables:\n  - input\ntemplate: |\n  {{input}}\n";

/// Skill definition.
pub const SKILL_DEFINITION: &'static str = "# Skill\n\nDescribe what this skill lets an agent do, when to use it and the steps it follows.\n";

/// Version-control ignore list.
pub const GITIGNORE: &'static str = "__pycache__/\n*.pyc\n.env\n.venv/\nlogs/\n";

} // verus!
