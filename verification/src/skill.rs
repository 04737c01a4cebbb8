//! What is known of a skill and of the commands that its text may run.

use vstd::prelude::*;

verus! {

/// Where a skill comes from.
#[derive(Debug, Clone, Copy, PartialEq, Eq, Structural)]
pub enum SkillScope {
    /// The repository that is worked on.
    Repo,
    /// Anywhere else.
    Other,
}

/// A skill.
#[derive(Debug, Clone, PartialEq, Eq)]
pub struct SkillMetadata {
    pub name: String,
    /// The path of the file that holds the skill's text.
    pub path: String,
    pub scope: SkillScope,
}

/// What a skill says of the commands in its text.
#[derive(Debug, Clone, PartialEq, Eq)]
pub struct SkillDynamicContext {
    /// Whether placeholders in the text are expanded.
    pub inline_command_placeholders: bool,
    /// The commands that may be run, each as it is written in the text.
    pub allowed_commands: Vec<String>,
    pub timeout_seconds: Option<u64>,
    pub max_output_chars: Option<usize>,
    pub max_total_output_chars: Option<usize>,
    pub max_placeholders: Option<usize>,
}

/// How long a command may take, in seconds, where the skill does not say.
pub const DEFAULT_TIMEOUT_SECONDS: u64 = 10;

/// How many characters of a command's output are kept, where the skill does not
/// say.
pub const DEFAULT_MAX_OUTPUT_CHARS: usize = 20_000;

/// How many characters all the blocks of a text may take before no more commands
/// are run, where the skill does not say.
pub const DEFAULT_MAX_TOTAL_OUTPUT_CHARS: usize = 50_000;

/// How many placeholders of a text are looked at, where the skill does not say.
pub const DEFAULT_MAX_PLACEHOLDERS: usize = 16;

/// The limits under which the commands of a text are run.
#[derive(Debug, Clone, Copy, PartialEq, Eq, Structural)]
pub struct ExpansionLimits {
    pub timeout_seconds: u64,
    pub max_output_chars: usize,
    pub max_total_output_chars: usize,
    pub max_placeholders: usize,
}

/// The limits that a skill sets, and the defaults where it sets none.
pub open spec fn limits_of(context: SkillDynamicContext) -> ExpansionLimits {
    ExpansionLimits {
        timeout_seconds: match context.timeout_seconds {
            Some(n) => n,
            None => DEFAULT_TIMEOUT_SECONDS,
        },
        max_output_chars: match context.max_output_chars {
            Some(n) => n,
            None => DEFAULT_MAX_OUTPUT_CHARS,
        },
        max_total_output_chars: match context.max_total_output_chars {
            Some(n) => n,
            None => DEFAULT_MAX_TOTAL_OUTPUT_CHARS,
        },
        max_placeholders: match context.max_placeholders {
            Some(n) => n,
            None => DEFAULT_MAX_PLACEHOLDERS,
        },
    }
}

impl SkillDynamicContext {
    /// The limits that the skill sets, and the defaults where it sets none.
    pub fn limits(&self) -> (r: ExpansionLimits)
        ensures
            r == limits_of(*self),
    {
        ExpansionLimits {
            timeout_seconds: self.timeout_seconds.unwrap_or(DEFAULT_TIMEOUT_SECONDS),
            max_output_chars: self.max_output_chars.unwrap_or(DEFAULT_MAX_OUTPUT_CHARS),
            max_total_output_chars: self.max_total_output_chars.unwrap_or(
                DEFAULT_MAX_TOTAL_OUTPUT_CHARS,
            ),
            max_placeholders: self.max_placeholders.unwrap_or(DEFAULT_MAX_PLACEHOLDERS),
        }
    }
}

/// Whether commands of a skill may be run: those of a repository only where the
/// project is trusted.
pub open spec fn may_run_commands(scope: SkillScope, project_trusted: bool) -> bool {
    scope == SkillScope::Repo ==> project_trusted
}

/// Whether commands of `skill` may be run.
pub fn skill_allows_dynamic_context_execution(skill: &SkillMetadata, project_trusted: bool) -> (r:
    bool)
    ensures
        r == may_run_commands(skill.scope, project_trusted),
        r == (skill.scope != SkillScope::Repo || project_trusted),
{
    if skill.scope != SkillScope::Repo {
        return true;
    }
    project_trusted
}

} // verus!
