//! The expansion of all the texts that a turn takes in, as a machine that is told
//! what came of each command.
//!
//! [`expand_skill_dynamic_contexts`] begins. [`TurnExpander::step`] takes in one
//! text, or opens it where there are placeholders to deal with; [`OpenText::step`]
//! then deals with these one at a time, until the text is closed.

use crate::command::{CommandRequest, RequestView};
use crate::dynamic_context::inline_placeholders;
use crate::expansion::{
    after_run, after_skip, begun, expand_skill_contents, finished, granted_request,
    run_result_view, skip_reason, AwaitedCommand, ContentsExpander, ContentsView, ExpansionStart,
    ExpansionState, ExpansionStep, SkillContentsExpansion,
};
use crate::expansion_laws::{
    after_events, law_text_is_at_its_end_at_once, law_text_is_expanded_under_its_limits,
    ExpansionEvent,
};
use crate::injection::{
    all_recorded, expansion_target, injection_views, law_last_mention_has_its_say,
    law_path_stands_for_one, law_text_goes_to_the_end, law_unmentioned_path_stands_for_none,
    outcome_view, recorded, stands_for, taken_in, target_of, InjectionView, ItemsView,
    MentionedSkill, SkillDynamicContextExpansion, SkillInjection,
};
use crate::output::CommandRunOutput;
use crate::skill::{SkillDynamicContext, SkillScope};
use vstd::prelude::*;

verus! {

/// How far the texts of a turn have been taken in.
#[verifier::ext_equal]
pub struct TurnState {
    pub injections: Seq<InjectionView>,
    pub mentioned: Seq<MentionedSkill>,
    pub project_trusted: bool,
    pub environment_selected: bool,
    /// How many of the texts are taken in.
    pub next: int,
    pub so_far: ItemsView,
}

/// How the texts of a turn begin to be taken in.
pub open spec fn begun_turn(
    injections: Seq<InjectionView>,
    mentioned: Seq<MentionedSkill>,
    project_trusted: bool,
    environment_selected: bool,
) -> TurnState {
    TurnState {
        injections,
        mentioned,
        project_trusted,
        environment_selected,
        next: 0,
        so_far: ItemsView { items: Seq::empty(), warnings: Seq::empty() },
    }
}

/// The state once the next text is taken in, with its expansion where it was
/// expanded.
pub open spec fn after_text(st: TurnState, outcome: Option<ContentsView>) -> TurnState {
    TurnState {
        next: st.next + 1,
        so_far: recorded(st.so_far, st.injections[st.next], outcome),
        ..st
    }
}

/// How a text is begun.
pub enum TextStart {
    /// It is not expanded.
    Kept,
    /// Its expansion is at its end at once.
    Ended(ContentsView),
    /// There are placeholders to deal with.
    Opened(ExpansionState),
}

/// How a text of the turn is begun.
pub open spec fn text_start(
    injection: InjectionView,
    mentioned: Seq<MentionedSkill>,
    project_trusted: bool,
    environment_selected: bool,
) -> TextStart {
    match target_of(mentioned, injection.path) {
        None => TextStart::Kept,
        Some(k) => match begun(
            injection.contents,
            mentioned[k].skill,
            mentioned[k].dynamic_context->0,
            project_trusted,
            environment_selected,
        ) {
            Err(expansion) => TextStart::Ended(expansion),
            Ok(state) => TextStart::Opened(state),
        },
    }
}

/// How the next text is begun.
pub open spec fn next_start(st: TurnState) -> TextStart {
    text_start(
        st.injections[st.next],
        st.mentioned,
        st.project_trusted,
        st.environment_selected,
    )
}

/// The texts of a turn on their way.
pub struct TurnExpander {
    injections: Vec<SkillInjection>,
    mentioned: Vec<MentionedSkill>,
    project_trusted: bool,
    environment_selected: bool,
    next: usize,
    result: SkillDynamicContextExpansion,
}

impl View for TurnExpander {
    type V = TurnState;

    closed spec fn view(&self) -> TurnState {
        TurnState {
            injections: injection_views(self.injections@),
            mentioned: self.mentioned@,
            project_trusted: self.project_trusted,
            environment_selected: self.environment_selected,
            next: self.next as int,
            so_far: self.result@,
        }
    }
}

/// A text with placeholders to deal with.
pub struct OpenText {
    turn: TurnExpander,
    expander: ContentsExpander,
}

impl OpenText {
    /// How far the texts of the turn have been taken in.
    pub closed spec fn turn(&self) -> TurnState {
        self.turn@
    }

    /// How far the expansion of the text has come.
    pub closed spec fn text(&self) -> ExpansionState {
        self.expander@
    }

    #[verifier::type_invariant]
    spec fn text_is_left(self) -> bool {
        self.turn.next < self.turn.injections.len()
    }
}

/// A placeholder of an open text, whose command is to be run.
pub struct AwaitedTextCommand {
    turn: TurnExpander,
    awaited: AwaitedCommand,
}

impl AwaitedTextCommand {
    /// How far the texts of the turn have been taken in.
    pub closed spec fn turn(&self) -> TurnState {
        self.turn@
    }

    /// How far the expansion of the text had come.
    pub closed spec fn text(&self) -> ExpansionState {
        self.awaited.state()
    }

    /// What the command is granted.
    pub closed spec fn granted(&self) -> RequestView {
        self.awaited.granted()
    }

    #[verifier::type_invariant]
    spec fn text_is_left(self) -> bool {
        self.turn.next < self.turn.injections.len()
    }
}

/// What taking in a text comes to.
pub enum TurnStep {
    /// Every text is taken in.
    Finished(SkillDynamicContextExpansion),
    /// A text was taken in.
    Advanced(TurnExpander),
    /// A text has placeholders to deal with.
    Opened(OpenText),
}

/// What a step in an open text comes to.
pub enum TextStep {
    /// Every placeholder is dealt with, and the text is taken in.
    Closed(TurnExpander),
    /// A placeholder was passed over.
    Skipped(OpenText),
    /// A placeholder's command is to be run.
    Run(AwaitedTextCommand),
}

/// Begins to take in the texts of a turn.
pub fn expand_skill_dynamic_contexts(
    skill_injections: Vec<SkillInjection>,
    mentioned_skills: Vec<MentionedSkill>,
    project_trusted: bool,
    environment_selected: bool,
) -> (r: TurnExpander)
    ensures
        r@ == begun_turn(
            injection_views(skill_injections@),
            mentioned_skills@,
            project_trusted,
            environment_selected,
        ),
{
    TurnExpander {
        injections: skill_injections,
        mentioned: mentioned_skills,
        project_trusted,
        environment_selected,
        next: 0,
        result: SkillDynamicContextExpansion::new(),
    }
}

impl TurnExpander {
    #[verifier::type_invariant]
    spec fn is_on_track(self) -> bool {
        self.next <= self.injections.len()
    }

    /// Takes in the next text, with its expansion where it was expanded.
    fn take_in(
        self,
        outcome: Option<SkillContentsExpansion>,
    ) -> (r: TurnExpander)
        requires
            self@.next < self@.injections.len(),
        ensures
            r@ == after_text(self@, outcome_view(outcome)),
    {
        assert(self.next < self.injections.len());
        let injection = SkillInjection {
            name: self.injections[self.next].name.clone(),
            path: self.injections[self.next].path.clone(),
            contents: self.injections[self.next].contents.clone(),
        };
        let next: usize = self.next + 1;
        let mut result = self.result;
        result.record(injection, outcome);
        TurnExpander { result, next, ..self }
    }

    /// Takes in the next text: as it is where it is not expanded, with its
    /// expansion where that is at its end at once. Where there are placeholders to
    /// deal with, the text is opened.
    pub fn step(self) -> (r: TurnStep)
        ensures
            match r {
                TurnStep::Finished(expansion) => self@.next == self@.injections.len()
                    && expansion@ == self@.so_far,
                TurnStep::Advanced(turn) => {
                    &&& self@.next < self@.injections.len()
                    &&& match next_start(self@) {
                        TextStart::Kept => turn@ == after_text(self@, None),
                        TextStart::Ended(expansion) => turn@ == after_text(
                            self@,
                            Some(expansion),
                        ),
                        TextStart::Opened(_) => false,
                    }
                },
                TurnStep::Opened(open) => {
                    &&& self@.next < self@.injections.len()
                    &&& next_start(self@) == TextStart::Opened(open.text())
                    &&& open.turn() == self@
                },
            },
    {
        proof {
            use_type_invariant(&self);
        }
        if self.next >= self.injections.len() {
            return TurnStep::Finished(self.result);
        }
        let k: usize = match expansion_target(&self.injections[self.next], &self.mentioned) {
            Some(k) => k,
            None => {
                return TurnStep::Advanced(self.take_in(None));
            },
        };
        proof {
            let path = self.injections@[self.next as int].path@;
            assert(stands_for(self.mentioned@, path, k as int));
        }
        let start = match &self.mentioned[k].dynamic_context {
            Some(dynamic_context) => expand_skill_contents(
                self.injections[self.next].contents.as_str(),
                &self.mentioned[k].skill,
                dynamic_context,
                self.project_trusted,
                self.environment_selected,
            ),
            None => {
                return TurnStep::Advanced(self.take_in(None));
            },
        };
        match start {
            ExpansionStart::Finished(expansion) => TurnStep::Advanced(
                self.take_in(Some(expansion)),
            ),
            ExpansionStart::Running(expander) => TurnStep::Opened(
                OpenText { turn: self, expander },
            ),
        }
    }
}

impl OpenText {
    /// Deals with the next placeholder of the text, `elapsed_nanos` nanoseconds
    /// after the text was opened.
    pub fn step(self, elapsed_nanos: u128) -> (r: TextStep)
        ensures
            match r {
                TextStep::Closed(turn) => self.text().next == self.text().placeholders.len()
                    && turn@ == after_text(self.turn(), Some(finished(self.text()))),
                TextStep::Skipped(open) => {
                    &&& self.text().next < self.text().placeholders.len()
                    &&& skip_reason(self.text(), elapsed_nanos as nat) is Some
                    &&& open.text() == after_skip(
                        self.text(),
                        skip_reason(self.text(), elapsed_nanos as nat)->0,
                    )
                    &&& open.turn() == self.turn()
                },
                TextStep::Run(awaited) => {
                    &&& self.text().next < self.text().placeholders.len()
                    &&& skip_reason(self.text(), elapsed_nanos as nat) is None
                    &&& awaited.text() == self.text()
                    &&& awaited.granted() == granted_request(self.text(), elapsed_nanos as nat)
                    &&& awaited.turn() == self.turn()
                },
            },
    {
        proof {
            use_type_invariant(&self);
        }
        let turn = self.turn;
        match self.expander.step(elapsed_nanos) {
            ExpansionStep::Finished(expansion) => TextStep::Closed(turn.take_in(Some(expansion))),
            ExpansionStep::Skipped(expander) => TextStep::Skipped(OpenText { turn, expander }),
            ExpansionStep::Run(awaited) => TextStep::Run(AwaitedTextCommand { turn, awaited }),
        }
    }
}

impl AwaitedTextCommand {
    /// The command that is to be run, and what it is granted.
    pub fn request(&self) -> (r: CommandRequest)
        ensures
            r@ == self.granted(),
    {
        self.awaited.request()
    }

    /// Takes up what came of the command.
    pub fn complete(self, result: Result<CommandRunOutput, String>) -> (r: OpenText)
        ensures
            r.text() == after_run(
                self.text(),
                self.granted().timeout_seconds,
                run_result_view(result),
            ),
            r.turn() == self.turn(),
    {
        proof {
            use_type_invariant(&self);
        }
        let turn = self.turn;
        OpenText { turn, expander: self.awaited.complete(result) }
    }
}

/// What comes of a text, given what the world has to say of its placeholders.
pub open spec fn text_outcome(
    injection: InjectionView,
    mentioned: Seq<MentionedSkill>,
    project_trusted: bool,
    environment_selected: bool,
    events: Seq<ExpansionEvent>,
) -> Option<ContentsView> {
    match text_start(injection, mentioned, project_trusted, environment_selected) {
        TextStart::Kept => None,
        TextStart::Ended(expansion) => Some(expansion),
        TextStart::Opened(state) => Some(finished(after_events(state, events))),
    }
}

/// What comes of the next text, given what the world has to say of its
/// placeholders.
pub open spec fn next_outcome(st: TurnState, events: Seq<ExpansionEvent>) -> Option<ContentsView> {
    text_outcome(
        st.injections[st.next],
        st.mentioned,
        st.project_trusted,
        st.environment_selected,
        events,
    )
}

/// The state once as many texts are taken in as there are lists of events, each
/// list with what the world has to say of the placeholders of one text.
pub open spec fn after_texts(st: TurnState, events: Seq<Seq<ExpansionEvent>>) -> TurnState
    decreases events.len(),
{
    if events.len() == 0 {
        st
    } else {
        let before = after_texts(st, events.drop_last());
        after_text(before, next_outcome(before, events.last()))
    }
}

/// What comes of the texts of a turn, one by one.
pub open spec fn text_outcomes(
    injections: Seq<InjectionView>,
    mentioned: Seq<MentionedSkill>,
    project_trusted: bool,
    environment_selected: bool,
    events: Seq<Seq<ExpansionEvent>>,
) -> Seq<Option<ContentsView>> {
    Seq::new(
        events.len(),
        |i: int|
            text_outcome(
                injections[i],
                mentioned,
                project_trusted,
                environment_selected,
                events[i],
            ),
    )
}

/// Taking in the texts one by one comes, after each of them, to the same as taking
/// in all of those at once; and so at the end to what the whole turn comes to.
pub proof fn law_steps_come_to_the_whole(
    injections: Seq<InjectionView>,
    mentioned: Seq<MentionedSkill>,
    project_trusted: bool,
    environment_selected: bool,
    events: Seq<Seq<ExpansionEvent>>,
)
    requires
        events.len() <= injections.len(),
    ensures
        ({
            let start = begun_turn(injections, mentioned, project_trusted, environment_selected);
            let end = after_texts(start, events);
            let outcomes = text_outcomes(
                injections,
                mentioned,
                project_trusted,
                environment_selected,
                events,
            );
            &&& end == (TurnState {
                next: events.len() as int,
                so_far: all_recorded(injections.take(events.len() as int), outcomes),
                ..start
            })
            &&& events.len() == injections.len() ==> end.so_far == all_recorded(
                injections,
                outcomes,
            )
        }),
    decreases events.len(),
{
    let n = events.len() as int;
    let outcomes = text_outcomes(
        injections,
        mentioned,
        project_trusted,
        environment_selected,
        events,
    );
    if n > 0 {
        let fewer = events.drop_last();
        law_steps_come_to_the_whole(
            injections,
            mentioned,
            project_trusted,
            environment_selected,
            fewer,
        );
        assert(injections.take(n).drop_last() =~= injections.take(n - 1));
        assert(outcomes.drop_last() =~= text_outcomes(
            injections,
            mentioned,
            project_trusted,
            environment_selected,
            fewer,
        ));
    }
    if n == injections.len() {
        assert(injections.take(n) =~= injections);
    }
}

/// A text of a skill that is not mentioned is taken in as it was.
pub proof fn law_unmentioned_text_is_kept(
    injection: InjectionView,
    mentioned: Seq<MentionedSkill>,
    project_trusted: bool,
    environment_selected: bool,
    events: Seq<ExpansionEvent>,
)
    requires
        forall|k: int|
            0 <= k < mentioned.len() ==> (#[trigger] mentioned[k]).skill.path@ != injection.path,
    ensures
        text_outcome(injection, mentioned, project_trusted, environment_selected, events) is None,
{
    if let Some(k) = target_of(mentioned, injection.path) {
        assert(stands_for(mentioned, injection.path, k));
    }
}

/// A text of a repository's skill is taken in as it was where the project is not
/// trusted, whatever its commands would do.
pub proof fn law_untrusted_repo_text_is_kept(
    injection: InjectionView,
    mentioned: Seq<MentionedSkill>,
    k: int,
    environment_selected: bool,
    events: Seq<ExpansionEvent>,
)
    requires
        stands_for(mentioned, injection.path, k),
        mentioned[k].skill.scope == SkillScope::Repo,
    ensures
        taken_in(
            injection,
            text_outcome(injection, mentioned, false, environment_selected, events),
        ) == injection,
{
    if let Some(j) = target_of(mentioned, injection.path) {
        assert(stands_for(mentioned, injection.path, j));
        law_path_stands_for_one(mentioned, injection.path, j, k);
    }
}

/// Without an environment to run commands in, every text is taken in as it was.
pub proof fn law_text_is_kept_without_environment(
    injection: InjectionView,
    mentioned: Seq<MentionedSkill>,
    project_trusted: bool,
    events: Seq<ExpansionEvent>,
)
    ensures
        taken_in(
            injection,
            text_outcome(injection, mentioned, project_trusted, false, events),
        ) == injection,
{
}

/// Nothing is taken in where a turn begins.
pub proof fn law_turn_begins_with_nothing(
    injections: Seq<InjectionView>,
    mentioned: Seq<MentionedSkill>,
    project_trusted: bool,
    environment_selected: bool,
)
    ensures
        ({
            let st = begun_turn(injections, mentioned, project_trusted, environment_selected);
            &&& st.injections == injections
            &&& st.mentioned == mentioned
            &&& st.project_trusted == project_trusted
            &&& st.environment_selected == environment_selected
            &&& st.next == 0
            &&& st.so_far.items.len() == 0
            &&& st.so_far.warnings.len() == 0
        }),
{
}

/// The next text goes to the end of those that are taken in, as it was or as its
/// expansion has it, and the texts that are left stay as they are. How it is begun
/// rests on the text, the skills, the trust and the environment of the turn.
pub proof fn law_next_text_is_taken_in(st: TurnState, expansion: ContentsView)
    ensures
        ({
            let text = st.injections[st.next];
            &&& next_start(st) == text_start(
                text,
                st.mentioned,
                st.project_trusted,
                st.environment_selected,
            )
            &&& after_text(st, None) == (TurnState {
                next: st.next + 1,
                so_far: ItemsView {
                    items: st.so_far.items.push(text),
                    warnings: st.so_far.warnings,
                },
                ..st
            })
            &&& after_text(st, Some(expansion)) == (TurnState {
                next: st.next + 1,
                so_far: ItemsView {
                    items: st.so_far.items.push(
                        InjectionView {
                            name: text.name,
                            path: text.path,
                            contents: expansion.contents,
                        },
                    ),
                    warnings: st.so_far.warnings + expansion.warnings,
                },
                ..st
            })
        }),
{
    law_text_goes_to_the_end(st.so_far, st.injections[st.next], expansion);
}

/// A text with placeholders is opened where the last skill that is mentioned with
/// its path expands them and there is an environment, if that skill is none of a
/// repository, whatever the project's trust, and if the project is trusted,
/// whatever the skill. It is opened with all its placeholders to deal with, and
/// with the allowlist of that skill.
pub proof fn law_allowed_text_is_opened(
    injection: InjectionView,
    mentioned: Seq<MentionedSkill>,
    k: int,
    context: SkillDynamicContext,
    project_trusted: bool,
)
    requires
        0 <= k < mentioned.len(),
        mentioned[k].skill.path@ == injection.path,
        forall|j: int|
            k < j < mentioned.len() ==> (#[trigger] mentioned[j]).skill.path@ != injection.path,
        mentioned[k].dynamic_context == Some(context),
        context.inline_command_placeholders,
        inline_placeholders(injection.contents).len() > 0,
        mentioned[k].skill.scope != SkillScope::Repo || project_trusted,
    ensures
        match text_start(injection, mentioned, project_trusted, true) {
            TextStart::Opened(state) => {
                &&& begun(injection.contents, mentioned[k].skill, context, project_trusted, true)
                    == Ok::<ExpansionState, ContentsView>(state)
                &&& state.contents == injection.contents
                &&& state.skill_name == mentioned[k].skill.name@
                &&& state.placeholders == inline_placeholders(injection.contents)
                &&& state.next == 0
                &&& state.warnings.len() == 0
                &&& state.replacements.len() == 0
                &&& state.allowed_commands.len() == context.allowed_commands@.len()
                &&& forall|i: int|
                    0 <= i < state.allowed_commands.len() ==> #[trigger] state.allowed_commands[i]
                        == context.allowed_commands@[i]@
            },
            _ => false,
        },
{
    law_last_mention_has_its_say(mentioned, injection.path, k);
    law_text_is_expanded_under_its_limits(
        injection.contents,
        mentioned[k].skill,
        context,
        project_trusted,
    );
}

/// A text is kept without a word where no skill is mentioned with its path, or the
/// last one that is does not expand placeholders.
pub proof fn law_text_without_a_say_is_kept(
    injection: InjectionView,
    mentioned: Seq<MentionedSkill>,
    k: int,
    project_trusted: bool,
    environment_selected: bool,
)
    requires
        -1 <= k < mentioned.len(),
        forall|j: int|
            k < j < mentioned.len() ==> (#[trigger] mentioned[j]).skill.path@ != injection.path,
        k >= 0 ==> mentioned[k].skill.path@ == injection.path && match mentioned[k].dynamic_context {
            Some(context) => !context.inline_command_placeholders,
            None => true,
        },
    ensures
        text_start(injection, mentioned, project_trusted, environment_selected) is Kept,
{
    if k >= 0 {
        law_last_mention_has_its_say(mentioned, injection.path, k);
    } else {
        law_unmentioned_path_stands_for_none(mentioned, injection.path);
    }
}

/// A text that the last skill mentioned with its path would expand ends at once
/// where it holds no placeholder, where that skill is one of a repository in a
/// project that is not trusted, and where there is no environment; it is as it was,
/// and in the last two cases warned of once.
pub proof fn law_text_ends_at_once(
    injection: InjectionView,
    mentioned: Seq<MentionedSkill>,
    k: int,
    context: SkillDynamicContext,
    project_trusted: bool,
    environment_selected: bool,
)
    requires
        0 <= k < mentioned.len(),
        mentioned[k].skill.path@ == injection.path,
        forall|j: int|
            k < j < mentioned.len() ==> (#[trigger] mentioned[j]).skill.path@ != injection.path,
        mentioned[k].dynamic_context == Some(context),
        context.inline_command_placeholders,
        inline_placeholders(injection.contents).len() == 0 || (mentioned[k].skill.scope
            == SkillScope::Repo && !project_trusted) || !environment_selected,
    ensures
        match text_start(injection, mentioned, project_trusted, environment_selected) {
            TextStart::Ended(expansion) => {
                let name = mentioned[k].skill.name@;
                let written = inline_placeholders(injection.contents).len() > 0;
                let distrusted = mentioned[k].skill.scope == SkillScope::Repo && !project_trusted;
                &&& expansion.contents == injection.contents
                &&& !written ==> expansion.warnings.len() == 0
                &&& written && distrusted ==> expansion.warnings == seq![
                    "Skipping dynamic context for skill `"@ + name
                        + "` because repo-scoped dynamic context requires a trusted project."@,
                ]
                &&& written && !distrusted ==> expansion.warnings == seq![
                    "Skipping dynamic context for skill `"@ + name
                        + "` because no execution environment is selected."@,
                ]
            },
            _ => false,
        },
{
    law_last_mention_has_its_say(mentioned, injection.path, k);
    law_text_is_at_its_end_at_once(
        injection.contents,
        mentioned[k].skill,
        context,
        project_trusted,
        environment_selected,
    );
}

} // verus!
