//! Configuration data: the built-in agent definitions, the name index,
//! the configuration file path, and the settings that persist. Reading
//! and writing the file is left to the configuration collaborator.

use vstd::prelude::*;

verus! {

/// One configured agent provider: how to invoke it and which models it
/// offers.
#[derive(Debug)]
pub struct AgentProviderConfig {
    pub name: String,
    pub command: String,
    pub models: Vec<String>,
    pub default_model: String,
    pub description: String,
}

impl AgentProviderConfig {
    pub fn clone(&self) -> (r: AgentProviderConfig)
        ensures
            r.name == self.name,
            r.command == self.command,
            r.models@.len() == self.models@.len(),
            forall|i: int| 0 <= i < self.models@.len() ==> r.models@[i] == #[trigger] self.models@[i],
            r.default_model == self.default_model,
            r.description == self.description,
    {
        let mut models: Vec<String> = Vec::new();
        let mut i: usize = 0;
        while i < self.models.len()
            invariant
                i <= self.models@.len(),
                models@.len() == i,
                forall|q: int| 0 <= q < i ==> models@[q] == #[trigger] self.models@[q],
            decreases self.models@.len() - i,
        {
            models.push(self.models[i].clone());
            i = i + 1;
        }
        AgentProviderConfig {
            name: self.name.clone(),
            command: self.command.clone(),
            models,
            default_model: self.default_model.clone(),
            description: self.description.clone(),
        }
    }
}

/// The known command-line agents, with their invocation templates.
pub fn known_agents() -> (r: Vec<AgentProviderConfig>)
    ensures
        r@.len() == 3,
        r@[0].name@ == "codex"@,
        r@[0].models@.len() == 0,
        r@[0].default_model@.len() == 0,
        r@[1].name@ == "opencode"@,
        r@[1].models@.len() == 2,
        r@[1].models@[0]@ == "openai/gpt-5.2-codex"@,
        r@[1].models@[1]@ == "openai/o3"@,
        r@[1].default_model@ == "openai/gpt-5.2-codex"@,
        r@[2].name@ == "gemini"@,
        r@[2].models@.len() == 4,
        r@[2].default_model@ == "gemini-3-flash-preview"@,
{
    let mut r: Vec<AgentProviderConfig> = Vec::new();

    r.push(
        AgentProviderConfig {
            name: String::from_str("codex"),
            command: String::from_str(
                "codex --sandbox workspace-write --ask-for-approval untrusted '{rendered_prompt}'",
            ),
            models: Vec::new(),
            default_model: String::new(),
            description: String::from_str("OpenAI Codex CLI"),
        },
    );

    let mut opencode_models: Vec<String> = Vec::new();
    opencode_models.push(String::from_str("openai/gpt-5.2-codex"));
    opencode_models.push(String::from_str("openai/o3"));
    r.push(
        AgentProviderConfig {
            name: String::from_str("opencode"),
            command: String::from_str("opencode -m {model} '{rendered_prompt}'"),
            models: opencode_models,
            default_model: String::from_str("openai/gpt-5.2-codex"),
            description: String::from_str("OpenCode CLI"),
        },
    );

    let mut gemini_models: Vec<String> = Vec::new();
    gemini_models.push(String::from_str("gemini-3-flash-preview"));
    gemini_models.push(String::from_str("gemini-3-pro-preview"));
    gemini_models.push(String::from_str("gemini-2.5-pro"));
    gemini_models.push(String::from_str("gemini-2.5-flash"));
    r.push(
        AgentProviderConfig {
            name: String::from_str("gemini"),
            command: String::from_str("gemini --approval-mode auto_edit '{rendered_prompt}'"),
            models: gemini_models,
            default_model: String::from_str("gemini-3-flash-preview"),
            description: String::from_str("Google Gemini CLI"),
        },
    );

    r
}

/// The agents-by-name index: each agent's name paired with its position.
pub fn build_agents_index(agents: &Vec<AgentProviderConfig>) -> (r: Vec<(String, usize)>)
    ensures
        r@.len() == agents@.len(),
        forall|i: int|
            0 <= i < agents@.len() ==> {
                &&& (#[trigger] r@[i]).0 == agents@[i].name
                &&& r@[i].1 == i
            },
{
    let mut r: Vec<(String, usize)> = Vec::new();
    let mut i: usize = 0;
    while i < agents.len()
        invariant
            i <= agents@.len(),
            r@.len() == i,
            forall|q: int|
                0 <= q < i ==> {
                    &&& (#[trigger] r@[q]).0 == agents@[q].name
                    &&& r@[q].1 == q
                },
        decreases agents@.len() - i,
    {
        r.push((agents[i].name.clone(), i));
        i = i + 1;
    }
    r
}

/// The configuration file path below the home directory, or below the
/// working directory when no home is known.
pub fn config_path(home: Option<&str>) -> (r: String)
    ensures
        r@ == (match home {
            Some(h) => h@,
            None => "."@,
        }) + "/.config/mdiff/config.toml"@,
{
    let mut r = match home {
        Some(h) => h.to_owned(),
        None => String::from_str("."),
    };
    r.append("/.config/mdiff/config.toml");
    r
}

/// Settings persisted to the configuration file when the settings modal
/// closes.
#[derive(Debug)]
pub struct PersistentSettings {
    pub theme: String,
    pub unified: bool,
    pub ignore_whitespace: bool,
    pub context_lines: usize,
}

} // verus!
