//! Talking to language models: the requests the library builds, the
//! replies it reads, and the prompts it writes.

use vstd::prelude::*;
use crate::text::{join, join_spec, owned, views};

pub mod anthropic;
pub mod azure;
pub mod mlx;
pub mod ollama;
pub mod openai;
pub mod schema;

verus! {

/// What a task-enrichment request tells the model.
#[derive(Clone, Debug)]
pub struct EnrichmentRequest {
    pub description: String,
    pub project_name: String,
    pub project_goal: Option<String>,
    pub project_stack: Option<String>,
    pub project_notes: Option<String>,
    /// Existing pending tasks as `(short id, description)`, for dependency
    /// suggestions.
    pub existing_tasks: Vec<(String, String)>,
    /// A file-tree summary of the repository, so suggestions use real paths.
    pub repo_tree: Option<String>,
    /// The project's build/test/lint/run commands.
    pub project_commands: Option<String>,
}

/// A code anchor the model thinks is relevant to the task.
#[derive(Clone, Debug, Default)]
pub struct RelevantFile {
    /// Repo-relative path.
    pub path: String,
    /// Why this file or symbol matters for the task.
    pub reason: Option<String>,
    /// The function or type to change, if known.
    pub symbol: Option<String>,
    pub line_start: Option<i64>,
    pub line_end: Option<i64>,
}

/// The model's plan for a task.
#[derive(Clone, Debug, Default)]
pub struct EnrichmentResponse {
    /// Suggested priority: `H`, `M`, `L`, or nothing.
    pub priority: Option<String>,
    /// Suggested due date, ISO or human-readable.
    pub due: Option<String>,
    pub tags: Vec<String>,
    /// Short ids of existing tasks this one should depend on.
    pub suggested_dependencies: Vec<String>,
    /// A cleaned-up description.
    pub description_suggestion: Option<String>,
    /// Why the suggested item exists and how it fits the project.
    pub rationale: Option<String>,
    /// Ordered implementation steps.
    pub steps: Vec<String>,
    /// Definition of done.
    pub acceptance_criteria: Vec<String>,
    pub findings: Vec<String>,
    pub constraints: Vec<String>,
    pub non_goals: Vec<String>,
    pub assumptions: Vec<String>,
    pub open_questions: Vec<String>,
    pub relevant_files: Vec<RelevantFile>,
    /// Command that verifies the task.
    pub test_cmd: Option<String>,
    /// Lint command for the task.
    pub lint_cmd: Option<String>,
}

/// The model's enrichment of a captured note or link.
#[derive(Clone, Debug, Default)]
pub struct ItemEnrichmentResponse {
    /// One-line summary.
    pub summary: Option<String>,
    pub tags: Vec<String>,
    /// PARA destination: `1 Projects`, `2 Areas`, `3 Resources` or `Inbox`.
    pub para_folder: Option<String>,
    /// A better title when the one given is weak.
    pub title: Option<String>,
}

/// What an item-enrichment request tells the model.
#[derive(Clone, Debug)]
pub struct ItemEnrichmentRequest {
    pub kind: String,
    pub title: String,
    pub body: String,
    pub url: Option<String>,
    pub profile_context: Option<String>,
    /// The git project the capture was made in.
    pub current_project: Option<String>,
}

pub open spec fn opt_view(o: Option<String>) -> Option<Seq<char>> {
    match o {
        Some(s) => Some(s@),
        None => None,
    }
}

/// `parts` with `prefix + value` added when there is a value.
pub open spec fn with_part(parts: Seq<Seq<char>>, value: Option<Seq<char>>, prefix: Seq<char>) -> Seq<
    Seq<char>,
> {
    match value {
        Some(v) => parts.push(prefix + v),
        None => parts,
    }
}

fn push_part(parts: &mut Vec<String>, value: &Option<String>, prefix: &str)
    ensures
        views(final(parts)@) == with_part(views(old(parts)@), opt_view(*value), prefix@),
{
    match value {
        Some(v) => {
            let mut p = owned(prefix);
            p.append(v.as_str());
            let ghost before = views(parts@);
            parts.push(p);
            assert(views(parts@) =~= before.push(prefix@ + v@));
        },
        None => {},
    }
}

/// The planner's standing instructions.
pub open spec fn planner_intro() -> Seq<char> {
    "You are an AI software-engineering planner. Turn the task into a thorough, self-contained implementation guide that another engineer (human or LLM) can execute step by step. Return a JSON object matching the schema. Ground every file/anchor in the repo tree below (use real paths), keep steps ordered and concrete, make acceptance criteria verifiable, and surface assumptions/open questions instead of guessing."@
}

/// The pending tasks listed for the model, one `  id: description` line each.
pub open spec fn task_lines(tasks: Seq<(String, String)>) -> Seq<Seq<char>> {
    tasks.map_values(|t: (String, String)| "  "@ + t.0@ + ": "@ + t.1@)
}

/// The system prompt shared by all providers for task enrichment: the
/// planner instructions, the project, then whichever of goal, stack, notes,
/// commands, repository tree and pending tasks are known, separated by blank
/// lines.
pub open spec fn system_prompt_text(req: EnrichmentRequest) -> Seq<char> {
    let p = seq![planner_intro(), "Project: "@ + req.project_name@];
    let p = with_part(p, opt_view(req.project_goal), "Project goal: "@);
    let p = with_part(p, opt_view(req.project_stack), "Tech stack: "@);
    let p = with_part(p, opt_view(req.project_notes), "Notes/conventions: "@);
    let p = with_part(p, opt_view(req.project_commands), "Project commands:\n"@);
    let p = with_part(p, opt_view(req.repo_tree), "Repository file tree (suggest only real paths):\n"@);
    let p = if req.existing_tasks@.len() > 0 {
        p.push(
            "Existing pending tasks (id: description):\n"@ + join_spec(
                task_lines(req.existing_tasks@),
                "\n"@,
            ),
        )
    } else {
        p
    };
    join_spec(p, "\n\n"@)
}

pub fn system_prompt(req: &EnrichmentRequest) -> (r: String)
    ensures
        r@ == system_prompt_text(*req),
{
    let mut parts: Vec<String> = Vec::new();
    parts.push(owned("You are an AI software-engineering planner. Turn the task into a thorough, self-contained implementation guide that another engineer (human or LLM) can execute step by step. Return a JSON object matching the schema. Ground every file/anchor in the repo tree below (use real paths), keep steps ordered and concrete, make acceptance criteria verifiable, and surface assumptions/open questions instead of guessing."));
    let mut head = owned("Project: ");
    head.append(req.project_name.as_str());
    parts.push(head);
    assert(views(parts@) =~= seq![planner_intro(), "Project: "@ + req.project_name@]);
    push_part(&mut parts, &req.project_goal, "Project goal: ");
    push_part(&mut parts, &req.project_stack, "Tech stack: ");
    push_part(&mut parts, &req.project_notes, "Notes/conventions: ");
    push_part(&mut parts, &req.project_commands, "Project commands:\n");
    push_part(&mut parts, &req.repo_tree, "Repository file tree (suggest only real paths):\n");
    if req.existing_tasks.len() > 0 {
        let mut lines: Vec<String> = Vec::new();
        let mut i: usize = 0;
        assert(req.existing_tasks@.take(0) =~= Seq::<(String, String)>::empty());
        while i < req.existing_tasks.len()
            invariant
                i <= req.existing_tasks@.len(),
                views(lines@) == task_lines(req.existing_tasks@.take(i as int)),
            decreases req.existing_tasks@.len() - i,
        {
            let mut l = owned("  ");
            l.append(req.existing_tasks[i].0.as_str());
            l.append(": ");
            l.append(req.existing_tasks[i].1.as_str());
            let ghost before = views(lines@);
            lines.push(l);
            proof {
                assert(req.existing_tasks@.take(i + 1) =~= req.existing_tasks@.take(i as int).push(
                    req.existing_tasks@[i as int],
                ));
                assert(views(lines@) =~= before.push(l@));
                assert(task_lines(req.existing_tasks@.take(i + 1)) =~= task_lines(
                    req.existing_tasks@.take(i as int),
                ).push(l@));
            }
            i = i + 1;
        }
        assert(req.existing_tasks@.take(req.existing_tasks@.len() as int) =~= req.existing_tasks@);
        let mut part = owned("Existing pending tasks (id: description):\n");
        part.append(join(&lines, "\n").as_str());
        let ghost before = views(parts@);
        parts.push(part);
        assert(views(parts@) =~= before.push(part@));
    }
    join(&parts, "\n\n")
}

/// The paragraph about the current git project in the item prompt.
pub open spec fn project_block(project: Seq<char>) -> Seq<char> {
    "Current git project: "@ + project + "\nDefault PARA destination for active project material: 1 Projects/"@ + project + "\nUse 3 Resources only for general reference not tied to this active project.\nUse 2 Areas for ongoing responsibilities (health, finance, etc.).\nUse Inbox when unsure."@
}

/// The system prompt for enriching a captured note or link.
pub open spec fn item_system_prompt_text(req: ItemEnrichmentRequest) -> Seq<char> {
    let p = seq!["You are Sara, a personal assistant. Analyze captured content and return JSON with enrichment."@, "Content type: "@ + req.kind@];
    let p = with_part(p, opt_view(req.profile_context), "User profile (adapt to their patterns):\n"@);
    let p = match req.current_project {
        Some(proj) => p.push(project_block(proj@)),
        None => p,
    };
    join_spec(p.push("Suggest para_folder as one of: \"1 Projects\", \"2 Areas\", \"3 Resources\", \"Inbox\". Prefer 1 Projects when content supports active work in the current git project."@), "\n\n"@)
}

pub fn item_system_prompt(req: &ItemEnrichmentRequest) -> (r: String)
    ensures
        r@ == item_system_prompt_text(*req),
{
    let mut parts: Vec<String> = Vec::new();
    parts.push(owned("You are Sara, a personal assistant. Analyze captured content and return JSON with enrichment."));
    let mut kind = owned("Content type: ");
    kind.append(req.kind.as_str());
    parts.push(kind);
    assert(views(parts@) =~= seq!["You are Sara, a personal assistant. Analyze captured content and return JSON with enrichment."@, "Content type: "@ + req.kind@]);
    push_part(&mut parts, &req.profile_context, "User profile (adapt to their patterns):\n");
    match &req.current_project {
        Some(project) => {
            let mut b = owned("Current git project: ");
            b.append(project.as_str());
            b.append("\nDefault PARA destination for active project material: 1 Projects/");
            b.append(project.as_str());
            b.append("\nUse 3 Resources only for general reference not tied to this active project.\nUse 2 Areas for ongoing responsibilities (health, finance, etc.).\nUse Inbox when unsure.");
            let ghost before = views(parts@);
            parts.push(b);
            assert(views(parts@) =~= before.push(project_block(project@)));
        },
        None => {},
    }
    let ghost before = views(parts@);
    parts.push(owned("Suggest para_folder as one of: \"1 Projects\", \"2 Areas\", \"3 Resources\", \"Inbox\". Prefer 1 Projects when content supports active work in the current git project."));
    assert(views(parts@) =~= before.push("Suggest para_folder as one of: \"1 Projects\", \"2 Areas\", \"3 Resources\", \"Inbox\". Prefer 1 Projects when content supports active work in the current git project."@));
    join(&parts, "\n\n")
}

/// The user prompt for a captured item: its title and content, its URL if
/// any, and the request for JSON.
pub open spec fn item_user_prompt_text(req: ItemEnrichmentRequest) -> Seq<char> {
    "Title: "@ + req.title@ + "\nContent:\n"@ + req.body@ + match req.url {
        Some(u) => "\nURL: "@ + u@,
        None => Seq::empty(),
    } + "\n\nRespond with JSON matching the schema."@
}

pub fn item_user_prompt(req: &ItemEnrichmentRequest) -> (r: String)
    ensures
        r@ == item_user_prompt_text(*req),
{
    let mut s = owned("Title: ");
    s.append(req.title.as_str());
    s.append("\nContent:\n");
    s.append(req.body.as_str());
    match &req.url {
        Some(u) => {
            s.append("\nURL: ");
            s.append(u.as_str());
        },
        None => {},
    }
    s.append("\n\nRespond with JSON matching the schema.");
    assert(s@ =~= item_user_prompt_text(*req));
    s
}

/// The user prompt for task enrichment: the quoted task and the reply rules.
pub open spec fn user_prompt_text(req: EnrichmentRequest) -> Seq<char> {
    "Task: \""@ + req.description@ + "\"\n\nRespond with a JSON object matching the schema. Use null for unknown fields. Only suggest dependencies from the existing tasks list above."@
}

pub fn user_prompt(req: &EnrichmentRequest) -> (r: String)
    ensures
        r@ == user_prompt_text(*req),
{
    let mut s = owned("Task: \"");
    s.append(req.description.as_str());
    s.append("\"\n\nRespond with a JSON object matching the schema. Use null for unknown fields. Only suggest dependencies from the existing tasks list above.");
    s
}

/// The fixed check-in instructions that open every check-in prompt.
pub open spec fn brief_intro() -> Seq<char> {
    "You are Sara, the user's personal CLI assistant. Write a brief check-in — warm, direct, second person, like a thoughtful colleague who knows their context. Use ONLY the facts provided. 2–4 short paragraphs max, then optionally one line starting with → for a suggested next action. Lead with what matters most (due today, current project). Don't list raw urgency scores or numbered task dumps. Don't say \"I'd be happy to help\" or other chatbot filler. Don't invent facts not in the context."@
}

/// The system prompt for `brief`: a personal check-in written from the
/// given facts, with the user's background when known.
pub open spec fn brief_system_prompt_text(profile: Option<Seq<char>>) -> Seq<char> {
    join_spec(with_part(seq![brief_intro()], profile, "Background on the user:\n"@), "\n\n"@)
}

pub fn brief_system_prompt(profile_context: Option<&str>) -> (r: String)
    ensures
        r@ == brief_system_prompt_text(
            match profile_context {
                Some(p) => Some(p@),
                None => None,
            },
        ),
{
    let mut parts: Vec<String> = Vec::new();
    parts.push(owned("You are Sara, the user's personal CLI assistant. Write a brief check-in — warm, direct, second person, like a thoughtful colleague who knows their context. Use ONLY the facts provided. 2–4 short paragraphs max, then optionally one line starting with → for a suggested next action. Lead with what matters most (due today, current project). Don't list raw urgency scores or numbered task dumps. Don't say \"I'd be happy to help\" or other chatbot filler. Don't invent facts not in the context."));
    assert(views(parts@) =~= seq!["You are Sara, the user's personal CLI assistant. Write a brief check-in — warm, direct, second person, like a thoughtful colleague who knows their context. Use ONLY the facts provided. 2–4 short paragraphs max, then optionally one line starting with → for a suggested next action. Lead with what matters most (due today, current project). Don't list raw urgency scores or numbered task dumps. Don't say \"I'd be happy to help\" or other chatbot filler. Don't invent facts not in the context."@]);
    let profile: Option<String> = match profile_context {
        Some(p) => Some(owned(p)),
        None => None,
    };
    push_part(&mut parts, &profile, "Background on the user:\n");
    join(&parts, "\n\n")
}

/// The system prompt for search and ask: answers from the user's store,
/// with the user's profile when known.
pub open spec fn search_system_prompt_text(profile: Option<Seq<char>>) -> Seq<char> {
    join_spec(with_part(seq!["You are Sara, a personal CLI assistant built around memory. The user has a private second brain: long-term MEMORY.md, daily notes, captured notes/links, and tasks. Personal memory files are the highest-authority source — trust them over inference. Answer using ONLY the context provided. Be concise and helpful. Reference sources (MEMORY.md, l1, n2, task ids, PARA folder) when citing. Notes and links are organized in PARA folders (Projects, Areas, Resources, Inbox) — prefer project-scoped resources when the user asks about the current project. If context is insufficient, say so and suggest what to capture or remember. When asked about project progress: if a 'Recorded project status' or project snapshot says no milestones yet, state that clearly and summarize pending tasks — do not say memory is empty when tasks or snapshots are present. Only suggest capturing milestones if the user asks how to track progress. When the context includes a live pending tasks list, treat it as authoritative — it reflects the current database and overrides older project snapshots in memory. When recent notes & links are listed for a project, summarize those captures first for \"what's recent\" questions — they are live and override stale memory snapshots."@], profile, "User profile:\n"@), "\n\n"@)
}

pub fn search_system_prompt(profile_context: Option<&str>) -> (r: String)
    ensures
        r@ == search_system_prompt_text(
            match profile_context {
                Some(p) => Some(p@),
                None => None,
            },
        ),
{
    let mut parts: Vec<String> = Vec::new();
    parts.push(owned("You are Sara, a personal CLI assistant built around memory. The user has a private second brain: long-term MEMORY.md, daily notes, captured notes/links, and tasks. Personal memory files are the highest-authority source — trust them over inference. Answer using ONLY the context provided. Be concise and helpful. Reference sources (MEMORY.md, l1, n2, task ids, PARA folder) when citing. Notes and links are organized in PARA folders (Projects, Areas, Resources, Inbox) — prefer project-scoped resources when the user asks about the current project. If context is insufficient, say so and suggest what to capture or remember. When asked about project progress: if a 'Recorded project status' or project snapshot says no milestones yet, state that clearly and summarize pending tasks — do not say memory is empty when tasks or snapshots are present. Only suggest capturing milestones if the user asks how to track progress. When the context includes a live pending tasks list, treat it as authoritative — it reflects the current database and overrides older project snapshots in memory. When recent notes & links are listed for a project, summarize those captures first for \"what's recent\" questions — they are live and override stale memory snapshots."));
    assert(views(parts@) =~= seq!["You are Sara, a personal CLI assistant built around memory. The user has a private second brain: long-term MEMORY.md, daily notes, captured notes/links, and tasks. Personal memory files are the highest-authority source — trust them over inference. Answer using ONLY the context provided. Be concise and helpful. Reference sources (MEMORY.md, l1, n2, task ids, PARA folder) when citing. Notes and links are organized in PARA folders (Projects, Areas, Resources, Inbox) — prefer project-scoped resources when the user asks about the current project. If context is insufficient, say so and suggest what to capture or remember. When asked about project progress: if a 'Recorded project status' or project snapshot says no milestones yet, state that clearly and summarize pending tasks — do not say memory is empty when tasks or snapshots are present. Only suggest capturing milestones if the user asks how to track progress. When the context includes a live pending tasks list, treat it as authoritative — it reflects the current database and overrides older project snapshots in memory. When recent notes & links are listed for a project, summarize those captures first for \"what's recent\" questions — they are live and override stale memory snapshots."@]);
    let profile: Option<String> = match profile_context {
        Some(p) => Some(owned(p)),
        None => None,
    };
    push_part(&mut parts, &profile, "User profile:\n");
    join(&parts, "\n\n")
}

/// Joining one more part appends the separator and the part.
proof fn lemma_join_push(parts: Seq<Seq<char>>, x: Seq<char>, sep: Seq<char>)
    requires
        parts.len() > 0,
    ensures
        join_spec(parts.push(x), sep) == join_spec(parts, sep) + sep + x,
{
    assert(parts.push(x).drop_last() =~= parts);
}

/// The check-in prompt with a user profile is the prompt without one, then
/// a blank line and the profile under `Background on the user:`.
pub proof fn lemma_brief_profile_appends(p: Seq<char>)
    ensures
        brief_system_prompt_text(Some(p)) == brief_system_prompt_text(None) + "\n\n"@
            + "Background on the user:\n"@ + p,
{
    let base = seq![brief_intro()];
    lemma_join_push(base, "Background on the user:\n"@ + p, "\n\n"@);
    assert(join_spec(base, "\n\n"@) == brief_intro());
    assert(brief_system_prompt_text(None) == brief_intro());
    assert(brief_system_prompt_text(Some(p)) == join_spec(
        base.push("Background on the user:\n"@ + p),
        "\n\n"@,
    ));
    assert(brief_intro() + "\n\n"@ + ("Background on the user:\n"@ + p) =~= brief_intro()
        + "\n\n"@ + "Background on the user:\n"@ + p);
}

/// The planner prompt does not depend on the task's description, which goes
/// in the user message instead.
pub proof fn lemma_system_prompt_ignores_description(a: EnrichmentRequest, b: EnrichmentRequest)
    requires
        a.project_name@ == b.project_name@,
        opt_view(a.project_goal) == opt_view(b.project_goal),
        opt_view(a.project_stack) == opt_view(b.project_stack),
        opt_view(a.project_notes) == opt_view(b.project_notes),
        opt_view(a.project_commands) == opt_view(b.project_commands),
        opt_view(a.repo_tree) == opt_view(b.repo_tree),
        task_lines(a.existing_tasks@) == task_lines(b.existing_tasks@),
    ensures
        system_prompt_text(a) == system_prompt_text(b),
{
    assert(a.existing_tasks@.len() == task_lines(a.existing_tasks@).len());
    assert(b.existing_tasks@.len() == task_lines(b.existing_tasks@).len());
}

/// With nothing known of the project but its name, the planner prompt is
/// the planner instructions, a blank line and `Project: <name>`; a known
/// goal adds a blank line and `Project goal: <goal>` at the end.
pub proof fn lemma_system_prompt_minimal(req: EnrichmentRequest)
    requires
        req.project_stack is None,
        req.project_notes is None,
        req.project_commands is None,
        req.repo_tree is None,
        req.existing_tasks@.len() == 0,
    ensures
        req.project_goal is None ==> system_prompt_text(req) == planner_intro() + "\n\n"@
            + "Project: "@ + req.project_name@,
        req.project_goal matches Some(g) ==> system_prompt_text(req) == planner_intro()
            + "\n\n"@ + "Project: "@ + req.project_name@ + "\n\n"@ + "Project goal: "@ + g@,
{
    let head = seq![planner_intro(), "Project: "@ + req.project_name@];
    let one = seq![planner_intro()];
    assert(one.push("Project: "@ + req.project_name@) =~= head);
    lemma_join_push(one, "Project: "@ + req.project_name@, "\n\n"@);
    assert(join_spec(one, "\n\n"@) == planner_intro());
    assert(join_spec(head, "\n\n"@) =~= planner_intro() + "\n\n"@ + "Project: "@
        + req.project_name@);
    match req.project_goal {
        Some(g) => {
            lemma_join_push(head, "Project goal: "@ + g@, "\n\n"@);
            assert(join_spec(head.push("Project goal: "@ + g@), "\n\n"@) =~= planner_intro()
                + "\n\n"@ + "Project: "@ + req.project_name@ + "\n\n"@ + "Project goal: "@
                + g@);
        },
        None => {},
    }
}

/// A pending task of the project closes the planner prompt with its line
/// `  <id>: <description>`, after the list's heading.
pub proof fn lemma_system_prompt_lists_tasks(req: EnrichmentRequest)
    requires
        req.existing_tasks@.len() == 1,
    ensures
        ({
            let t = req.existing_tasks@[0];
            let tail = ":\n  "@ + t.0@ + ": "@ + t.1@;
            let s = system_prompt_text(req);
            s.len() >= tail.len() && s.subrange(s.len() - tail.len(), s.len() as int) == tail
        }),
{
    let t = req.existing_tasks@[0];
    let lines = task_lines(req.existing_tasks@);
    assert(lines.len() == 1);
    assert(join_spec(lines, "\n"@) == lines[0]);
    let last = "Existing pending tasks (id: description):\n"@ + join_spec(lines, "\n"@);
    let p = seq![planner_intro(), "Project: "@ + req.project_name@];
    let p = with_part(p, opt_view(req.project_goal), "Project goal: "@);
    let p = with_part(p, opt_view(req.project_stack), "Tech stack: "@);
    let p = with_part(p, opt_view(req.project_notes), "Notes/conventions: "@);
    let p = with_part(p, opt_view(req.project_commands), "Project commands:\n"@);
    let p = with_part(p, opt_view(req.repo_tree), "Repository file tree (suggest only real paths):\n"@);
    assert(p.len() >= 2);
    lemma_join_push(p, last, "\n\n"@);
    let s = system_prompt_text(req);
    assert(s == join_spec(p, "\n\n"@) + "\n\n"@ + last);
    let tail = ":\n  "@ + t.0@ + ": "@ + t.1@;
    reveal_strlit("Existing pending tasks (id: description):\n");
    reveal_strlit("Existing pending tasks (id: description)");
    reveal_strlit(":\n  ");
    reveal_strlit("  ");
    assert(lines[0] == "  "@ + t.0@ + ": "@ + t.1@);
    assert(last =~= "Existing pending tasks (id: description)"@ + tail);
    assert(s.subrange(s.len() - tail.len(), s.len() as int) =~= tail);
}

} // verus!
