//! The expansion of one skill's text, as a machine that is told what came of
//! each command.
//!
//! [`expand_skill_contents`] begins. [`ContentsExpander::step`] then deals with
//! one placeholder at a time: it passes it over, or hands out an
//! [`AwaitedCommand`] whose command is to be run and whose outcome goes to
//! [`AwaitedCommand::complete`].

use crate::command::{CommandRequest, RequestView};
use crate::dynamic_context::{
    collect_inline_command_placeholders, inline_placeholders, law_placeholder_is_written,
    law_placeholders_in_order, placeholder_views, InlineCommandPlaceholder, PlaceholderView,
};
use crate::output::{CommandRunOutput, RunOutputView};
use crate::render::{append_exit_code, exit_code_text, render_command_output, rendered_block};
use crate::replacement::{
    apply_replacements, fits_at, replacement_views, replacements_fit, resume_at, spliced,
    ReplacementView,
};
use crate::skill::{
    limits_of, may_run_commands, skill_allows_dynamic_context_execution, ExpansionLimits,
    SkillDynamicContext, SkillMetadata,
};
use crate::text::{append_decimal, decimal};
use vstd::prelude::*;
use vstd::utf8::*;

verus! {

/// How long the commands of one text may take together, in seconds.
pub const MAX_TOTAL_RUNTIME_SECONDS: u64 = 120;

/// The nanoseconds of a second.
pub const NANOS_PER_SECOND: u128 = 1_000_000_000;

/// The text of a skill once it is expanded, and what there is to warn of.
#[derive(Debug, Clone, PartialEq, Eq)]
pub struct SkillContentsExpansion {
    pub contents: String,
    pub warnings: Vec<String>,
}

/// What a [`SkillContentsExpansion`] stands for.
#[verifier::ext_equal]
pub struct ContentsView {
    pub contents: Seq<char>,
    pub warnings: Seq<Seq<char>>,
}

/// What a list of strings stands for.
pub open spec fn string_views(list: Seq<String>) -> Seq<Seq<char>> {
    list.map_values(|s: String| s@)
}

impl View for SkillContentsExpansion {
    type V = ContentsView;

    open spec fn view(&self) -> ContentsView {
        ContentsView { contents: self.contents@, warnings: string_views(self.warnings@) }
    }
}

/// How far the expansion of a text has come.
#[verifier::ext_equal]
pub struct ExpansionState {
    pub contents: Seq<char>,
    pub skill_name: Seq<char>,
    pub allowed_commands: Seq<Seq<char>>,
    pub limits: ExpansionLimits,
    /// The placeholders of the text.
    pub placeholders: Seq<PlaceholderView>,
    /// How many of them are dealt with.
    pub next: int,
    /// The length of the blocks so far, in characters.
    pub total_output_chars: int,
    pub replacements: Seq<ReplacementView>,
    pub warnings: Seq<Seq<char>>,
}

/// How the expansion of a text begins.
pub open spec fn initial_state(
    contents: Seq<char>,
    skill_name: Seq<char>,
    allowed_commands: Seq<Seq<char>>,
    limits: ExpansionLimits,
) -> ExpansionState {
    ExpansionState {
        contents,
        skill_name,
        allowed_commands,
        limits,
        placeholders: inline_placeholders(contents),
        next: 0,
        total_output_chars: 0,
        replacements: Seq::empty(),
        warnings: Seq::empty(),
    }
}

/// Why a placeholder is passed over.
pub enum SkipReason {
    MaxPlaceholders,
    NotAllowlisted,
    MaxTotalOutput,
    RuntimeBudget,
}

/// How many characters the blocks may still take.
pub open spec fn remaining_output(st: ExpansionState) -> int {
    if st.total_output_chars >= st.limits.max_total_output_chars {
        0
    } else {
        st.limits.max_total_output_chars - st.total_output_chars
    }
}

/// How many nanoseconds the commands may still take, `elapsed` nanoseconds after
/// the expansion began.
pub open spec fn remaining_nanos(elapsed: nat) -> nat {
    let budget = MAX_TOTAL_RUNTIME_SECONDS as nat * NANOS_PER_SECOND as nat;
    if elapsed >= budget {
        0
    } else {
        (budget - elapsed) as nat
    }
}

/// Why the next placeholder is passed over, `elapsed` nanoseconds after the
/// expansion began.
pub open spec fn skip_reason(st: ExpansionState, elapsed: nat) -> Option<SkipReason> {
    if st.next >= st.limits.max_placeholders {
        Some(SkipReason::MaxPlaceholders)
    } else if !st.allowed_commands.contains(st.placeholders[st.next].command) {
        Some(SkipReason::NotAllowlisted)
    } else if remaining_output(st) == 0 {
        Some(SkipReason::MaxTotalOutput)
    } else if remaining_nanos(elapsed) == 0 {
        Some(SkipReason::RuntimeBudget)
    } else {
        None
    }
}

/// A sentence on a command of a skill.
pub open spec fn command_note(
    lead: Seq<char>,
    command: Seq<char>,
    skill_name: Seq<char>,
    tail: Seq<char>,
) -> Seq<char> {
    lead + command + "` in skill `"@ + skill_name + "`"@ + tail
}

/// What is said of a placeholder that is passed over.
pub open spec fn skip_warning(
    reason: SkipReason,
    command: Seq<char>,
    skill_name: Seq<char>,
) -> Seq<char> {
    command_note(
        "Skipped dynamic context command `"@,
        command,
        skill_name,
        match reason {
            SkipReason::MaxPlaceholders => " because max_placeholders was reached."@,
            SkipReason::NotAllowlisted => " because it is not allowlisted."@,
            SkipReason::MaxTotalOutput => " because max_total_output_chars was reached."@,
            SkipReason::RuntimeBudget =>
                " because the dynamic context runtime budget was reached."@,
        },
    )
}

/// What is said of a command that could not be run.
pub open spec fn error_warning(
    command: Seq<char>,
    skill_name: Seq<char>,
    error: Seq<char>,
) -> Seq<char> {
    command_note("Skipped dynamic context command `"@, command, skill_name, ": "@ + error)
}

/// What is said of the outcome of a command that was run, where something is.
pub open spec fn outcome_warning(
    command: Seq<char>,
    skill_name: Seq<char>,
    timeout_seconds: u64,
    output: RunOutputView,
) -> Option<Seq<char>> {
    let lead = "Dynamic context command `"@;
    if output.timed_out {
        Some(
            command_note(
                lead,
                command,
                skill_name,
                " timed out after "@ + decimal(timeout_seconds as nat) + "s."@,
            ),
        )
    } else if output.failure is Some {
        Some(command_note(lead, command, skill_name, " failed: "@ + output.failure->0))
    } else if output.exit_code != Some(0i32) {
        Some(
            command_note(
                lead,
                command,
                skill_name,
                " exited with status "@ + exit_code_text(output.exit_code) + "."@,
            ),
        )
    } else if output.truncated {
        Some(command_note(lead, command, skill_name, " was truncated."@))
    } else {
        None
    }
}

/// What the next placeholder's command is granted: no more output than a command
/// may have and than is left for the text, and no more time than a command may
/// take and, in whole seconds but at least one, than is left for the text.
pub open spec fn granted_request(st: ExpansionState, elapsed: nat) -> RequestView {
    let seconds = remaining_nanos(elapsed) / NANOS_PER_SECOND as nat;
    let seconds = if seconds < 1 {
        1
    } else {
        seconds
    };
    RequestView {
        command: st.placeholders[st.next].command,
        timeout_seconds: if st.limits.timeout_seconds <= seconds {
            st.limits.timeout_seconds
        } else {
            seconds as u64
        },
        output_limit: if st.limits.max_output_chars <= remaining_output(st) {
            st.limits.max_output_chars
        } else {
            remaining_output(st) as usize
        },
    }
}

/// The state once the next placeholder is passed over.
pub open spec fn after_skip(st: ExpansionState, reason: SkipReason) -> ExpansionState {
    ExpansionState {
        next: st.next + 1,
        warnings: st.warnings.push(
            skip_warning(reason, st.placeholders[st.next].command, st.skill_name),
        ),
        ..st
    }
}

/// A count of characters that stops at the largest `usize`.
pub open spec fn saturating_total(total: int, added: int) -> int {
    if total + added > usize::MAX {
        usize::MAX as int
    } else {
        total + added
    }
}

/// What came of a command: what is kept of it, or why it could not be run.
pub type RunResultView = Result<RunOutputView, Seq<char>>;

/// The state once the next placeholder's command has had its outcome.
pub open spec fn after_run(
    st: ExpansionState,
    timeout_seconds: u64,
    result: RunResultView,
) -> ExpansionState {
    let p = st.placeholders[st.next];
    match result {
        Ok(output) => {
            let block = rendered_block(p.command, output);
            ExpansionState {
                next: st.next + 1,
                total_output_chars: saturating_total(st.total_output_chars, block.len() as int),
                replacements: st.replacements.push(
                    ReplacementView { start: p.start, end: p.end, text: block },
                ),
                warnings: match outcome_warning(
                    p.command,
                    st.skill_name,
                    timeout_seconds,
                    output,
                ) {
                    Some(warning) => st.warnings.push(warning),
                    None => st.warnings,
                },
                ..st
            }
        },
        Err(error) => ExpansionState {
            next: st.next + 1,
            warnings: st.warnings.push(error_warning(p.command, st.skill_name, error)),
            ..st
        },
    }
}

/// What the expansion comes to once every placeholder is dealt with.
pub open spec fn finished(st: ExpansionState) -> ContentsView {
    ContentsView {
        contents: spliced(encode_utf8(st.contents), st.replacements),
        warnings: st.warnings,
    }
}

/// Whether the replacements so far can be made, and those of the placeholders
/// that are left can follow them.
pub open spec fn on_track(st: ExpansionState) -> bool {
    &&& st.placeholders == inline_placeholders(st.contents)
    &&& 0 <= st.next <= st.placeholders.len()
    &&& 0 <= st.total_output_chars <= usize::MAX
    &&& replacements_fit(encode_utf8(st.contents), st.replacements)
    &&& forall|k: int|
        st.next <= k < st.placeholders.len() ==> resume_at(
            st.replacements,
            st.replacements.len() as int,
        ) <= (#[trigger] st.placeholders[k]).start
}

/// Passing over a placeholder, or taking up the outcome of its command, keeps the
/// state on track.
pub proof fn lemma_stays_on_track(
    st: ExpansionState,
    reason: SkipReason,
    timeout_seconds: u64,
    result: RunResultView,
)
    requires
        on_track(st),
        st.next < st.placeholders.len(),
    ensures
        on_track(after_skip(st, reason)),
        on_track(after_run(st, timeout_seconds, result)),
{
    if let Ok(output) = result {
        let bytes = encode_utf8(st.contents);
        let new = after_run(st, timeout_seconds, result);
        law_placeholder_is_written(st.contents, st.next);
        assert forall|i: int| 0 <= i < new.replacements.len() implies #[trigger] fits_at(
            bytes,
            new.replacements,
            i,
        ) by {
            if i < st.replacements.len() {
                assert(fits_at(bytes, st.replacements, i));
            }
        }
        assert forall|k: int| new.next <= k < new.placeholders.len() implies resume_at(
            new.replacements,
            new.replacements.len() as int,
        ) <= (#[trigger] new.placeholders[k]).start by {
            law_placeholders_in_order(st.contents, st.next, k);
        }
    }
}

/// The expansion of one text under way.
pub struct ContentsExpander {
    contents: String,
    skill_name: String,
    allowed_commands: Vec<String>,
    limits: ExpansionLimits,
    placeholders: Vec<InlineCommandPlaceholder>,
    next: usize,
    total_output_chars: usize,
    replacements: Vec<(usize, usize, String)>,
    warnings: Vec<String>,
}

impl View for ContentsExpander {
    type V = ExpansionState;

    closed spec fn view(&self) -> ExpansionState {
        ExpansionState {
            contents: self.contents@,
            skill_name: self.skill_name@,
            allowed_commands: string_views(self.allowed_commands@),
            limits: self.limits,
            placeholders: placeholder_views(self.placeholders@),
            next: self.next as int,
            total_output_chars: self.total_output_chars as int,
            replacements: replacement_views(self.replacements@),
            warnings: string_views(self.warnings@),
        }
    }
}

/// A placeholder whose command is to be run.
pub struct AwaitedCommand {
    expander: ContentsExpander,
    request: CommandRequest,
}

impl AwaitedCommand {
    /// How far the expansion had come.
    pub closed spec fn state(&self) -> ExpansionState {
        self.expander@
    }

    /// What the command is granted.
    pub closed spec fn granted(&self) -> RequestView {
        self.request@
    }

    #[verifier::type_invariant]
    spec fn placeholder_is_left(self) -> bool {
        self.expander.next < self.expander.placeholders.len()
    }
}

/// What a step of the expansion comes to.
pub enum ExpansionStep {
    /// Every placeholder is dealt with.
    Finished(SkillContentsExpansion),
    /// A placeholder was passed over.
    Skipped(ContentsExpander),
    /// A placeholder's command is to be run.
    Run(AwaitedCommand),
}

/// How the expansion of a text begins.
pub enum ExpansionStart {
    /// There is nothing to expand.
    Finished(SkillContentsExpansion),
    /// There are placeholders to deal with.
    Running(ContentsExpander),
}

/// What is said of a skill whose text is not expanded.
pub open spec fn not_expanded_warning(skill_name: Seq<char>, tail: Seq<char>) -> Seq<char> {
    "Skipping dynamic context for skill `"@ + skill_name + tail
}

/// Why a text with placeholders is not expanded.
pub open spec fn expansion_refusal(
    skill: SkillMetadata,
    project_trusted: bool,
    environment_selected: bool,
) -> Option<Seq<char>> {
    if !may_run_commands(skill.scope, project_trusted) {
        Some(
            not_expanded_warning(
                skill.name@,
                "` because repo-scoped dynamic context requires a trusted project."@,
            ),
        )
    } else if !environment_selected {
        Some(
            not_expanded_warning(
                skill.name@,
                "` because no execution environment is selected."@,
            ),
        )
    } else {
        None
    }
}

/// How the expansion of a text begins: with a state where there are placeholders
/// to deal with, and at its end where there are none or no command may be run.
pub open spec fn begun(
    contents: Seq<char>,
    skill: SkillMetadata,
    dynamic_context: SkillDynamicContext,
    project_trusted: bool,
    environment_selected: bool,
) -> Result<ExpansionState, ContentsView> {
    if inline_placeholders(contents).len() == 0 {
        Err(ContentsView { contents, warnings: Seq::empty() })
    } else {
        match expansion_refusal(skill, project_trusted, environment_selected) {
            Some(warning) => Err(ContentsView { contents, warnings: seq![warning] }),
            None => Ok(
                initial_state(
                    contents,
                    skill.name@,
                    string_views(dynamic_context.allowed_commands@),
                    limits_of(dynamic_context),
                ),
            ),
        }
    }
}

fn not_expanded(contents: &str, skill_name: &String, tail: &str) -> (r: SkillContentsExpansion)
    ensures
        r@ == (ContentsView {
            contents: contents@,
            warnings: seq![not_expanded_warning(skill_name@, tail@)],
        }),
{
    let mut warning = String::from_str("Skipping dynamic context for skill `");
    warning.append(skill_name.as_str());
    warning.append(tail);
    let mut warnings: Vec<String> = Vec::new();
    warnings.push(warning);
    let r = SkillContentsExpansion { contents: contents.to_owned(), warnings };
    assert(r@.warnings =~= seq![not_expanded_warning(skill_name@, tail@)]);
    r
}

fn clone_strings(list: &Vec<String>) -> (r: Vec<String>)
    ensures
        string_views(r@) == string_views(list@),
{
    let mut r: Vec<String> = Vec::new();
    let mut i: usize = 0;
    while i < list.len()
        invariant
            i <= list.len(),
            r.len() == i,
            forall|j: int| 0 <= j < i ==> (#[trigger] r@[j])@ == list@[j]@,
        decreases list.len() - i,
    {
        r.push(list[i].clone());
        i += 1;
    }
    assert(string_views(r@) =~= string_views(list@));
    r
}

/// Begins to expand the text of a skill. A text without placeholders is left as
/// it is; so is one whose commands may not be run, with a warning.
pub fn expand_skill_contents(
    contents: &str,
    skill: &SkillMetadata,
    dynamic_context: &SkillDynamicContext,
    project_trusted: bool,
    environment_selected: bool,
) -> (r: ExpansionStart)
    ensures
        match r {
            ExpansionStart::Finished(expansion) => begun(
                contents@,
                *skill,
                *dynamic_context,
                project_trusted,
                environment_selected,
            ) == Err::<ExpansionState, ContentsView>(expansion@),
            ExpansionStart::Running(expander) => begun(
                contents@,
                *skill,
                *dynamic_context,
                project_trusted,
                environment_selected,
            ) == Ok::<ExpansionState, ContentsView>(expander@),
        },
{
    let placeholders = collect_inline_command_placeholders(contents);
    if placeholders.is_empty() {
        let expansion = SkillContentsExpansion {
            contents: contents.to_owned(),
            warnings: Vec::new(),
        };
        assert(expansion@.warnings =~= Seq::<Seq<char>>::empty());
        return ExpansionStart::Finished(expansion);
    }
    if !skill_allows_dynamic_context_execution(skill, project_trusted) {
        return ExpansionStart::Finished(
            not_expanded(
                contents,
                &skill.name,
                "` because repo-scoped dynamic context requires a trusted project.",
            ),
        );
    }
    if !environment_selected {
        return ExpansionStart::Finished(
            not_expanded(
                contents,
                &skill.name,
                "` because no execution environment is selected.",
            ),
        );
    }
    let replacements: Vec<(usize, usize, String)> = Vec::new();
    let warnings: Vec<String> = Vec::new();
    proof {
        assert(replacement_views(replacements@) =~= Seq::<ReplacementView>::empty());
        assert(string_views(warnings@) =~= Seq::<Seq<char>>::empty());
        assert forall|k: int| 0 <= k < inline_placeholders(contents@).len() implies 0 <= (
        #[trigger] inline_placeholders(contents@)[k]).start by {
            law_placeholder_is_written(contents@, k);
        }
    }
    ExpansionStart::Running(
        ContentsExpander {
            contents: contents.to_owned(),
            skill_name: skill.name.clone(),
            allowed_commands: clone_strings(&dynamic_context.allowed_commands),
            limits: dynamic_context.limits(),
            placeholders,
            next: 0,
            total_output_chars: 0,
            replacements,
            warnings,
        },
    )
}

/// Writes a sentence on a command of a skill.
fn note(lead: &str, command: &String, skill_name: &String, tail: &str) -> (r: String)
    ensures
        r@ == command_note(lead@, command@, skill_name@, tail@),
{
    let mut r = String::from_str(lead);
    r.append(command.as_str());
    r.append("` in skill `");
    r.append(skill_name.as_str());
    r.append("`");
    r.append(tail);
    r
}

/// Writes what is to be said of the outcome of a command that was run.
fn note_outcome(
    command: &String,
    skill_name: &String,
    timeout_seconds: u64,
    output: &CommandRunOutput,
) -> (r: Option<String>)
    ensures
        match r {
            Some(warning) => outcome_warning(command@, skill_name@, timeout_seconds, output@)
                == Some(warning@),
            None => outcome_warning(command@, skill_name@, timeout_seconds, output@) is None,
        },
{
    let lead = "Dynamic context command `";
    if output.timed_out {
        let mut tail = String::from_str(" timed out after ");
        append_decimal(&mut tail, timeout_seconds);
        tail.append("s.");
        Some(note(lead, command, skill_name, tail.as_str()))
    } else if let Some(failure) = &output.failure {
        let mut tail = String::from_str(" failed: ");
        tail.append(failure.as_str());
        Some(note(lead, command, skill_name, tail.as_str()))
    } else if output.exit_code != Some(0) {
        let mut tail = String::from_str(" exited with status ");
        append_exit_code(&mut tail, output.exit_code);
        tail.append(".");
        Some(note(lead, command, skill_name, tail.as_str()))
    } else if output.truncated {
        Some(note(lead, command, skill_name, " was truncated."))
    } else {
        None
    }
}

/// What a result stands for.
pub open spec fn run_result_view(result: Result<CommandRunOutput, String>) -> RunResultView {
    match result {
        Ok(output) => Ok(output@),
        Err(error) => Err(error@),
    }
}

impl ContentsExpander {
    #[verifier::type_invariant]
    spec fn is_on_track(self) -> bool {
        on_track(self@)
    }

    /// Whether the command is one that may be run.
    fn is_allowlisted(&self, command: &String) -> (r: bool)
        ensures
            r == self@.allowed_commands.contains(command@),
    {
        let mut i: usize = 0;
        while i < self.allowed_commands.len()
            invariant
                i <= self.allowed_commands.len(),
                forall|j: int| 0 <= j < i ==> (#[trigger] self.allowed_commands@[j])@ != command@,
            decreases self.allowed_commands.len() - i,
        {
            if self.allowed_commands[i] == *command {
                assert(self@.allowed_commands[i as int] == command@);
                return true;
            }
            i += 1;
        }
        proof {
            if self@.allowed_commands.contains(command@) {
                let j = choose|j: int|
                    0 <= j < self@.allowed_commands.len() && self@.allowed_commands[j] == command@;
                assert(self.allowed_commands@[j]@ == command@);
            }
        }
        false
    }

    /// Passes over the next placeholder.
    fn skip(self, reason: SkipReason) -> (r: ContentsExpander)
        requires
            self@.next < self@.placeholders.len(),
        ensures
            r@ == after_skip(self@, reason),
    {
        proof {
            use_type_invariant(&self);
            lemma_stays_on_track(self@, reason, 0, Err(Seq::empty()));
        }
        assert(self.next < self.placeholders.len());
        let next: usize = self.next + 1;
        let tail = match reason {
            SkipReason::MaxPlaceholders => " because max_placeholders was reached.",
            SkipReason::NotAllowlisted => " because it is not allowlisted.",
            SkipReason::MaxTotalOutput => " because max_total_output_chars was reached.",
            SkipReason::RuntimeBudget =>
                " because the dynamic context runtime budget was reached.",
        };
        let warning = note(
            "Skipped dynamic context command `",
            &self.placeholders[self.next].command,
            &self.skill_name,
            tail,
        );
        let mut warnings = self.warnings;
        let ghost before = warnings@;
        warnings.push(warning);
        assert(string_views(warnings@) =~= string_views(before).push(warning@));
        ContentsExpander { warnings, next, ..self }
    }

    /// Deals with the next placeholder, `elapsed_nanos` nanoseconds after the
    /// expansion began.
    pub fn step(self, elapsed_nanos: u128) -> (r: ExpansionStep)
        ensures
            match r {
                ExpansionStep::Finished(expansion) => self@.next == self@.placeholders.len()
                    && expansion@ == finished(self@),
                ExpansionStep::Skipped(expander) => {
                    &&& self@.next < self@.placeholders.len()
                    &&& skip_reason(self@, elapsed_nanos as nat) is Some
                    &&& expander@ == after_skip(
                        self@,
                        skip_reason(self@, elapsed_nanos as nat)->0,
                    )
                },
                ExpansionStep::Run(awaited) => {
                    &&& self@.next < self@.placeholders.len()
                    &&& skip_reason(self@, elapsed_nanos as nat) is None
                    &&& awaited.state() == self@
                    &&& awaited.granted() == granted_request(self@, elapsed_nanos as nat)
                },
            },
    {
        proof {
            use_type_invariant(&self);
        }
        if self.next >= self.placeholders.len() {
            let contents = apply_replacements(
                self.contents.as_str(),
                self.replacements.as_slice(),
            );
            return ExpansionStep::Finished(
                SkillContentsExpansion { contents, warnings: self.warnings },
            );
        }
        if self.next >= self.limits.max_placeholders {
            return ExpansionStep::Skipped(self.skip(SkipReason::MaxPlaceholders));
        }
        let command = self.placeholders[self.next].command.clone();
        if !self.is_allowlisted(&command) {
            return ExpansionStep::Skipped(self.skip(SkipReason::NotAllowlisted));
        }
        if self.total_output_chars >= self.limits.max_total_output_chars {
            return ExpansionStep::Skipped(self.skip(SkipReason::MaxTotalOutput));
        }
        let remaining_total: usize = self.limits.max_total_output_chars - self.total_output_chars;
        let budget: u128 = MAX_TOTAL_RUNTIME_SECONDS as u128 * NANOS_PER_SECOND;
        if elapsed_nanos >= budget {
            return ExpansionStep::Skipped(self.skip(SkipReason::RuntimeBudget));
        }
        let whole_seconds: u64 = ((budget - elapsed_nanos) / NANOS_PER_SECOND) as u64;
        let remaining_seconds: u64 = if whole_seconds < 1 {
            1
        } else {
            whole_seconds
        };
        let output_limit: usize = if self.limits.max_output_chars <= remaining_total {
            self.limits.max_output_chars
        } else {
            remaining_total
        };
        let timeout_seconds: u64 = if self.limits.timeout_seconds <= remaining_seconds {
            self.limits.timeout_seconds
        } else {
            remaining_seconds
        };
        let request = CommandRequest { command, timeout_seconds, output_limit };
        ExpansionStep::Run(AwaitedCommand { expander: self, request })
    }
}

impl AwaitedCommand {
    /// The command that is to be run, and what it is granted.
    pub fn request(&self) -> (r: CommandRequest)
        ensures
            r@ == self.granted(),
    {
        CommandRequest {
            command: self.request.command.clone(),
            timeout_seconds: self.request.timeout_seconds,
            output_limit: self.request.output_limit,
        }
    }

    /// Takes up what came of the command.
    pub fn complete(self, result: Result<CommandRunOutput, String>) -> (r: ContentsExpander)
        ensures
            r@ == after_run(
                self.state(),
                self.granted().timeout_seconds,
                run_result_view(result),
            ),
    {
        proof {
            use_type_invariant(&self);
        }
        let timeout_seconds: u64 = self.request.timeout_seconds;
        let expander = self.expander;
        proof {
            use_type_invariant(&expander);
            lemma_stays_on_track(
                expander@,
                SkipReason::MaxPlaceholders,
                timeout_seconds,
                run_result_view(result),
            );
        }
        let at: usize = expander.next;
        let start: usize = expander.placeholders[at].start;
        let end: usize = expander.placeholders[at].end;
        let command = expander.placeholders[at].command.clone();
        let mut warnings = expander.warnings;
        let ghost warned = warnings@;
        let next: usize = at + 1;
        match result {
            Ok(output) => {
                let rendered = render_command_output(command.as_str(), &output);
                let total_output_chars: usize = expander.total_output_chars.saturating_add(
                    rendered.as_str().unicode_len(),
                );
                if let Some(warning) = note_outcome(
                    &command,
                    &expander.skill_name,
                    timeout_seconds,
                    &output,
                ) {
                    warnings.push(warning);
                    assert(string_views(warnings@) =~= string_views(warned).push(warning@));
                }
                let mut replacements = expander.replacements;
                let ghost before = replacements@;
                replacements.push((start, end, rendered));
                assert(replacement_views(replacements@) =~= replacement_views(before).push(
                    ReplacementView { start: start as int, end: end as int, text: rendered@ },
                ));
                ContentsExpander { warnings, next, total_output_chars, replacements, ..expander }
            },
            Err(error) => {
                let mut tail = String::from_str(": ");
                tail.append(error.as_str());
                let warning = note(
                    "Skipped dynamic context command `",
                    &command,
                    &expander.skill_name,
                    tail.as_str(),
                );
                warnings.push(warning);
                assert(string_views(warnings@) =~= string_views(warned).push(warning@));
                ContentsExpander { warnings, next, ..expander }
            },
        }
    }
}

} // verus!
