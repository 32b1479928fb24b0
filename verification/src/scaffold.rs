//! What `init` and `create` write: directories, file paths and contents.
use vstd::prelude::*;

use crate::templates::{
    AGENT_DEFINITION, GITIGNORE, HOOK_SOURCE, PLUGIN_SOURCE, PROJECT_CONFIG, PROMPT_TEMPLATE,
    SKILL_DEFINITION, SYSTEM_PROMPT, TOOL_SOURCE,
};
use crate::text::{
    ascii_lower, concat, concat3, owned, replace, replace_all, to_lowercase, unicode_lowercase,
    views,
};
use vstd::utf8::is_ascii_chars;

verus! {

/// `dir` joined with the relative path `name`, as `Path::join` does: a
/// separator is added unless `dir` is empty or already ends in one.
pub open spec fn join_path(dir: Seq<char>, name: Seq<char>) -> Seq<char> {
    if dir.len() == 0 || dir.last() == '/' {
        dir + name
    } else {
        dir + "/"@ + name
    }
}

/// `dir` joined with the relative path `name`.
pub fn join(dir: &str, name: &str) -> (r: String)
    ensures
        r@ == join_path(dir@, name@),
{
    let cs = crate::text::chars_of(dir);
    if cs.len() == 0 || cs[cs.len() - 1] == '/' {
        concat(dir, name)
    } else {
        concat3(dir, "/", name)
    }
}

/// A file to write.
pub struct FilePlan {
    pub path: String,
    pub content: String,
}

pub open spec fn file_views(fs: Seq<FilePlan>) -> Seq<(Seq<char>, Seq<char>)> {
    fs.map_values(|f: FilePlan| (f.path@, f.content@))
}

/// The directories and files of a new project.
pub struct ProjectPlan {
    /// Directories to create, the project directory first.
    pub dirs: Vec<String>,
    /// Files to write, in order.
    pub files: Vec<FilePlan>,
}

/// The directories of a new project named `name`.
pub open spec fn project_dirs(name: Seq<char>) -> Seq<Seq<char>> {
    seq![
        name,
        join_path(name, "agents"@),
        join_path(name, "prompts"@),
        join_path(name, "tools"@),
        join_path(name, "hooks"@),
        join_path(name, "skills"@),
        join_path(name, "plugins"@),
        join_path(name, "tests"@),
    ]
}

/// The files of a new project named `name`, with their contents.
pub open spec fn project_files(name: Seq<char>) -> Seq<(Seq<char>, Seq<char>)> {
    seq![
        (join_path(name, "agentos.yaml"@), PROJECT_CONFIG@),
        (join_path(join_path(name, "agents"@), "main.agent.yaml"@), AGENT_DEFINITION@),
        (join_path(join_path(name, "prompts"@), "system.yaml"@), SYSTEM_PROMPT@),
        (join_path(join_path(name, "tools"@), "custom.py"@), TOOL_SOURCE@),
        (join_path(join_path(name, "hooks"@), "audit.py"@), HOOK_SOURCE@),
        (join_path(name, ".gitignore"@), GITIGNORE@),
    ]
}

fn file(dir: &str, name: &str, content: &str) -> (r: FilePlan)
    ensures
        r.path@ == join_path(dir@, name@),
        r.content@ == content@,
{
    FilePlan { path: join(dir, name), content: owned(content) }
}

/// What a new project named `name` consists of.
pub fn project_plan(name: &str) -> (r: ProjectPlan)
    ensures
        views(r.dirs@) == project_dirs(name@),
        file_views(r.files@) == project_files(name@),
{
    let mut dirs: Vec<String> = Vec::new();
    dirs.push(owned(name));
    dirs.push(join(name, "agents"));
    dirs.push(join(name, "prompts"));
    dirs.push(join(name, "tools"));
    dirs.push(join(name, "hooks"));
    dirs.push(join(name, "skills"));
    dirs.push(join(name, "plugins"));
    dirs.push(join(name, "tests"));
    assert(views(dirs@) =~= project_dirs(name@));
    let agents = join(name, "agents");
    let prompts = join(name, "prompts");
    let tools = join(name, "tools");
    let hooks = join(name, "hooks");
    let mut files: Vec<FilePlan> = Vec::new();
    files.push(file(name, "agentos.yaml", PROJECT_CONFIG));
    files.push(file(agents.as_str(), "main.agent.yaml", AGENT_DEFINITION));
    files.push(file(prompts.as_str(), "system.yaml", SYSTEM_PROMPT));
    files.push(file(tools.as_str(), "custom.py", TOOL_SOURCE));
    files.push(file(hooks.as_str(), "audit.py", HOOK_SOURCE));
    files.push(file(name, ".gitignore", GITIGNORE));
    assert(file_views(files@) =~= project_files(name@));
    ProjectPlan { dirs, files }
}

/// A component to create: the directory it goes in, its file and content.
pub struct ComponentPlan {
    pub dir: String,
    pub path: String,
    pub content: String,
}

/// The file name used for tools and plugins: `-` becomes `_`, then lower case.
pub open spec fn snake_name(name: Seq<char>) -> Seq<char> {
    unicode_lowercase(replace_all(name, "-"@, "_"@))
}

/// The file name of an ASCII name: `-` becomes `_`, then `A`..=`Z` become
/// their lower-case letters.
pub open spec fn ascii_snake_name(name: Seq<char>) -> Seq<char> {
    replace_all(name, "-"@, "_"@).map_values(|c: char| ascii_lower(c))
}

/// The name with `-` replaced, whose characters decide which lower-casing applies.
pub open spec fn snake_source(name: Seq<char>) -> Seq<char> {
    replace_all(name, "-"@, "_"@)
}

fn snake(name: &str) -> (r: String)
    ensures
        r@ == snake_name(name@),
        is_ascii_chars(snake_source(name@)) ==> r@ == ascii_snake_name(name@),
{
    proof {
        reveal_strlit("-");
    }
    let replaced = replace(name, "-", "_");
    to_lowercase(replaced.as_str())
}

/// A new agent `name`: `agents/<name>.agent.yaml`, from the agent template
/// with `main-agent` replaced by the name.
pub fn agent_plan(name: &str) -> (r: ComponentPlan)
    ensures
        r.dir@ == "agents"@,
        r.path@ == "agents/"@ + name@ + ".agent.yaml"@,
        r.content@ == replace_all(AGENT_DEFINITION@, "main-agent"@, name@),
{
    proof {
        reveal_strlit("main-agent");
    }
    ComponentPlan {
        dir: owned("agents"),
        path: concat3("agents/", name, ".agent.yaml"),
        content: replace(AGENT_DEFINITION, "main-agent", name),
    }
}

/// A new tool `name`: `tools/<snake>.py`, from the tool template with
/// `custom_tool` replaced by the snake-case name.
pub fn tool_plan(name: &str) -> (r: ComponentPlan)
    ensures
        r.dir@ == "tools"@,
        r.path@ == "tools/"@ + snake_name(name@) + ".py"@,
        r.content@ == replace_all(TOOL_SOURCE@, "custom_tool"@, snake_name(name@)),
        is_ascii_chars(snake_source(name@)) ==> r.path@ == "tools/"@ + ascii_snake_name(name@)
            + ".py"@,
        is_ascii_chars(snake_source(name@)) ==> r.content@ == replace_all(
            TOOL_SOURCE@,
            "custom_tool"@,
            ascii_snake_name(name@),
        ),
{
    proof {
        reveal_strlit("custom_tool");
    }
    let s = snake(name);
    ComponentPlan {
        dir: owned("tools"),
        path: concat3("tools/", s.as_str(), ".py"),
        content: replace(TOOL_SOURCE, "custom_tool", s.as_str()),
    }
}

/// A new plugin `name`: `plugins/<snake>.py`, from the plugin template with
/// `my_plugin` replaced by the snake-case name.
pub fn plugin_plan(name: &str) -> (r: ComponentPlan)
    ensures
        r.dir@ == "plugins"@,
        r.path@ == "plugins/"@ + snake_name(name@) + ".py"@,
        r.content@ == replace_all(PLUGIN_SOURCE@, "my_plugin"@, snake_name(name@)),
        is_ascii_chars(snake_source(name@)) ==> r.path@ == "plugins/"@ + ascii_snake_name(name@)
            + ".py"@,
        is_ascii_chars(snake_source(name@)) ==> r.content@ == replace_all(
            PLUGIN_SOURCE@,
            "my_plugin"@,
            ascii_snake_name(name@),
        ),
{
    proof {
        reveal_strlit("my_plugin");
    }
    let s = snake(name);
    ComponentPlan {
        dir: owned("plugins"),
        path: concat3("plugins/", s.as_str(), ".py"),
        content: replace(PLUGIN_SOURCE, "my_plugin", s.as_str()),
    }
}

/// A new prompt template `name`: `prompts/<name>.yaml`, from the prompt
/// template with `example-prompt` replaced by the name.
pub fn prompt_plan(name: &str) -> (r: ComponentPlan)
    ensures
        r.dir@ == "prompts"@,
        r.path@ == "prompts/"@ + name@ + ".yaml"@,
        r.content@ == replace_all(PROMPT_TEMPLATE@, "example-prompt"@, name@),
{
    proof {
        reveal_strlit("example-prompt");
    }
    ComponentPlan {
        dir: owned("prompts"),
        path: concat3("prompts/", name, ".yaml"),
        content: replace(PROMPT_TEMPLATE, "example-prompt", name),
    }
}

/// A new skill `name`: `skills/<name>.md`, the skill template as it is.
pub fn skill_plan(name: &str) -> (r: ComponentPlan)
    ensures
        r.dir@ == "skills"@,
        r.path@ == "skills/"@ + name@ + ".md"@,
        r.content@ == SKILL_DEFINITION@,
{
    ComponentPlan {
        dir: owned("skills"),
        path: concat3("skills/", name, ".md"),
        content: owned(SKILL_DEFINITION),
    }
}

/// Why a project cannot be created.
pub enum ScaffoldError {
    /// A file or directory of the project's name already exists.
    AlreadyExists { name: String },
}

impl ScaffoldError {
    /// The error text that the console reports.
    pub fn message(&self) -> (r: String)
        ensures
            r@ == match self {
                ScaffoldError::AlreadyExists { name } => "Directory '"@ + name@
                    + "' already exists. Choose a different project name."@,
            },
    {
        match self {
            ScaffoldError::AlreadyExists { name } => concat3(
                "Directory '",
                name.as_str(),
                "' already exists. Choose a different project name.",
            ),
        }
    }
}

/// The plan for a new project `name`, given whether something of that name
/// exists already; an existing one is never written over.
pub fn init_project(name: &str, exists: bool) -> (r: Result<ProjectPlan, ScaffoldError>)
    ensures
        exists ==> (r matches Err(ScaffoldError::AlreadyExists { name: n }) && n@ == name@),
        !exists ==> (r matches Ok(p) && views(p.dirs@) == project_dirs(name@) && file_views(
            p.files@,
        ) == project_files(name@)),
{
    if exists {
        Err(ScaffoldError::AlreadyExists { name: owned(name) })
    } else {
        Ok(project_plan(name))
    }
}

/// Every file of a new project lies in the project directory or in one of
/// the directories created for it.
pub proof fn law_project_files_in_created_dirs(name: Seq<char>)
    ensures
        forall|i: int|
            0 <= i < project_files(name).len() ==> exists|d: int, f: Seq<char>|
                #![trigger join_path(project_dirs(name)[d], f)]
                0 <= d < project_dirs(name).len() && (#[trigger] project_files(name)[i]).0
                    == join_path(project_dirs(name)[d], f),
{
    let ds = project_dirs(name);
    let fs = project_files(name);
    assert(fs[0].0 == join_path(ds[0], "agentos.yaml"@));
    assert(fs[1].0 == join_path(ds[1], "main.agent.yaml"@));
    assert(fs[2].0 == join_path(ds[2], "system.yaml"@));
    assert(fs[3].0 == join_path(ds[3], "custom.py"@));
    assert(fs[4].0 == join_path(ds[4], "audit.py"@));
    assert(fs[5].0 == join_path(ds[0], ".gitignore"@));
}

/// Each file of a new project carries its own template: the project
/// configuration, the main agent's definition, the main agent's system prompt,
/// the example tool, the audit hook and the ignore list, in that order.
pub proof fn law_project_files_carry_their_templates(name: Seq<char>)
    ensures
        project_files(name).len() == 6,
        project_files(name)[0] == (join_path(name, "agentos.yaml"@), PROJECT_CONFIG@),
        project_files(name)[1] == (
            join_path(join_path(name, "agents"@), "main.agent.yaml"@),
            AGENT_DEFINITION@,
        ),
        project_files(name)[2] == (
            join_path(join_path(name, "prompts"@), "system.yaml"@),
            SYSTEM_PROMPT@,
        ),
        project_files(name)[3] == (join_path(join_path(name, "tools"@), "custom.py"@), TOOL_SOURCE@),
        project_files(name)[4] == (join_path(join_path(name, "hooks"@), "audit.py"@), HOOK_SOURCE@),
        project_files(name)[5] == (join_path(name, ".gitignore"@), GITIGNORE@),
{
}

} // verus!
