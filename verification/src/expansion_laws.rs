//! What holds of every expansion of a text, whatever comes of its commands.

use crate::command::CommandRequest;
use crate::dynamic_context::{
    inline_placeholders, law_first_placeholder_is_found, law_placeholder_is_written,
    law_text_without_opening_has_none,
};
use crate::expansion::{
    after_run, after_skip, begun, error_warning, finished, granted_request, initial_state,
    lemma_stays_on_track, on_track, outcome_warning, remaining_nanos, saturating_total,
    run_result_view, skip_reason, skip_warning, string_views, ContentsView, ExpansionState,
    RunResultView, SkipReason,
    MAX_TOTAL_RUNTIME_SECONDS, NANOS_PER_SECOND,
};
use crate::markup::law_block_closes_once;
use crate::output::{CommandRunOutput, RunOutputView};
use crate::render::rendered_block;
use crate::replacement::{
    fits_at, law_nothing_replaced, law_replacement_takes_its_place, law_rest_is_kept, spliced,
    ReplacementView,
};
use crate::segments::text_between;
use crate::skill::{ExpansionLimits, SkillDynamicContext, SkillMetadata, SkillScope};
use crate::text::{contains_text, decimal, signed_decimal};
use vstd::prelude::*;
use vstd::utf8::*;

verus! {

/// What the world has to say of one placeholder: how many nanoseconds after the
/// beginning its turn came, and what comes of its command if it is run.
pub struct ExpansionEvent {
    pub elapsed: nat,
    pub result: RunResultView,
}

/// The state once the next placeholder is dealt with.
pub open spec fn after_event(st: ExpansionState, event: ExpansionEvent) -> ExpansionState {
    match skip_reason(st, event.elapsed) {
        Some(reason) => after_skip(st, reason),
        None => after_run(
            st,
            granted_request(st, event.elapsed).timeout_seconds,
            event.result,
        ),
    }
}

/// The state once as many placeholders are dealt with as there are events.
pub open spec fn after_events(st: ExpansionState, events: Seq<ExpansionEvent>) -> ExpansionState
    decreases events.len(),
{
    if events.len() == 0 {
        st
    } else {
        after_event(after_events(st, events.drop_last()), events.last())
    }
}

/// Whether the command of the placeholder at index `k` is run.
pub open spec fn is_run(st: ExpansionState, events: Seq<ExpansionEvent>, k: int) -> bool {
    skip_reason(after_events(st, events.take(k)), events[k].elapsed) is None
}

/// Whether the placeholder at index `k` is replaced: its command is run, and
/// something is kept of it.
pub open spec fn is_expanded(st: ExpansionState, events: Seq<ExpansionEvent>, k: int) -> bool {
    is_run(st, events, k) && events[k].result is Ok
}

/// What the placeholder at index `k` is replaced by.
pub open spec fn replacement_at(
    st: ExpansionState,
    events: Seq<ExpansionEvent>,
    k: int,
) -> ReplacementView {
    let p = st.placeholders[k];
    ReplacementView {
        start: p.start,
        end: p.end,
        text: rendered_block(p.command, events[k].result->Ok_0),
    }
}

/// The indices of the placeholders that are expanded, in rising order.
pub open spec fn expanded_indices(st: ExpansionState, events: Seq<ExpansionEvent>) -> Seq<int>
    decreases events.len(),
{
    if events.len() == 0 {
        Seq::empty()
    } else {
        let fewer = expanded_indices(st, events.drop_last());
        let k = events.len() - 1;
        if is_expanded(st, events, k) {
            fewer.push(k)
        } else {
            fewer
        }
    }
}

/// What the expanded placeholders are replaced by, in turn.
pub open spec fn expansion_replacements(
    st: ExpansionState,
    events: Seq<ExpansionEvent>,
) -> Seq<ReplacementView> {
    expanded_indices(st, events).map_values(|k: int| replacement_at(st, events, k))
}

/// What is said of the placeholder that event `k` deals with, where something is:
/// why it is passed over, why its command could not be run, or what there is to
/// say of the command's outcome.
pub open spec fn warning_at(
    st: ExpansionState,
    events: Seq<ExpansionEvent>,
    k: int,
) -> Option<Seq<char>> {
    let before = after_events(st, events.take(k));
    let command = st.placeholders[st.next + k].command;
    match skip_reason(before, events[k].elapsed) {
        Some(reason) => Some(skip_warning(reason, command, st.skill_name)),
        None => match events[k].result {
            Ok(output) => outcome_warning(
                command,
                st.skill_name,
                granted_request(before, events[k].elapsed).timeout_seconds,
                output,
            ),
            Err(error) => Some(error_warning(command, st.skill_name, error)),
        },
    }
}

/// What is said of the placeholders that the events deal with, in turn.
pub open spec fn warnings_in_turn(
    st: ExpansionState,
    events: Seq<ExpansionEvent>,
) -> Seq<Seq<char>>
    decreases events.len(),
{
    if events.len() == 0 {
        Seq::empty()
    } else {
        let fewer = warnings_in_turn(st, events.drop_last());
        match warning_at(st, events, events.len() - 1) {
            Some(warning) => fewer.push(warning),
            None => fewer,
        }
    }
}

proof fn lemma_initial_on_track(
    contents: Seq<char>,
    skill_name: Seq<char>,
    allowed_commands: Seq<Seq<char>>,
    limits: ExpansionLimits,
)
    ensures
        on_track(initial_state(contents, skill_name, allowed_commands, limits)),
{
    law_nothing_replaced(contents);
    assert forall|k: int| 0 <= k < inline_placeholders(contents).len() implies 0 <= (
    #[trigger] inline_placeholders(contents)[k]).start by {
        law_placeholder_is_written(contents, k);
    }
}

/// Each event deals with one placeholder, and changes neither the text nor what
/// the skill says of its commands; the replacements can always be made.
pub proof fn law_placeholders_are_dealt_with_in_turn(
    st: ExpansionState,
    events: Seq<ExpansionEvent>,
)
    requires
        on_track(st),
        st.next + events.len() <= st.placeholders.len(),
    ensures
        ({
            let end = after_events(st, events);
            &&& on_track(end)
            &&& end.next == st.next + events.len()
            &&& end.contents == st.contents
            &&& end.skill_name == st.skill_name
            &&& end.allowed_commands == st.allowed_commands
            &&& end.limits == st.limits
            &&& end.placeholders == st.placeholders
        }),
    decreases events.len(),
{
    if events.len() > 0 {
        law_placeholders_are_dealt_with_in_turn(st, events.drop_last());
        let before = after_events(st, events.drop_last());
        let event = events.last();
        lemma_stays_on_track(
            before,
            skip_reason(before, event.elapsed)->0,
            granted_request(before, event.elapsed).timeout_seconds,
            event.result,
        );
    }
}

/// No command is run but one of the allowlist, at one of the first placeholders
/// that may be looked at, while both the output and the time for the text are
/// not used up.
pub proof fn law_only_allowed_commands_run(
    contents: Seq<char>,
    skill_name: Seq<char>,
    allowed_commands: Seq<Seq<char>>,
    limits: ExpansionLimits,
    events: Seq<ExpansionEvent>,
    k: int,
)
    requires
        0 <= k < events.len() <= inline_placeholders(contents).len(),
        is_run(initial_state(contents, skill_name, allowed_commands, limits), events, k),
    ensures
        ({
            let st = initial_state(contents, skill_name, allowed_commands, limits);
            let before = after_events(st, events.take(k));
            &&& allowed_commands.contains(inline_placeholders(contents)[k].command)
            &&& k < limits.max_placeholders
            &&& before.total_output_chars < limits.max_total_output_chars
            &&& events[k].elapsed < MAX_TOTAL_RUNTIME_SECONDS as nat * NANOS_PER_SECOND as nat
            &&& granted_request(before, events[k].elapsed).command == inline_placeholders(
                contents,
            )[k].command
        }),
{
    lemma_initial_on_track(contents, skill_name, allowed_commands, limits);
    law_placeholders_are_dealt_with_in_turn(
        initial_state(contents, skill_name, allowed_commands, limits),
        events.take(k),
    );
}

/// What a command is granted lies within the limits: of output, what a command
/// may have and what is left for the text; of time, what a command may take and,
/// but for the last second, what is left for the text.
pub proof fn law_grant_is_within_limits(st: ExpansionState, elapsed: nat)
    requires
        on_track(st),
        st.next < st.placeholders.len(),
        skip_reason(st, elapsed) is None,
    ensures
        ({
            let granted = granted_request(st, elapsed);
            &&& granted.output_limit <= st.limits.max_output_chars
            &&& st.total_output_chars + granted.output_limit <= st.limits.max_total_output_chars
            &&& granted.timeout_seconds <= st.limits.timeout_seconds
            &&& granted.timeout_seconds <= 1 || granted.timeout_seconds * NANOS_PER_SECOND
                <= remaining_nanos(elapsed)
        }),
{
}

proof fn lemma_expanded_indices(st: ExpansionState, events: Seq<ExpansionEvent>)
    ensures
        forall|i: int, j: int|
            0 <= i < j < expanded_indices(st, events).len() ==> #[trigger] expanded_indices(
                st,
                events,
            )[i] < #[trigger] expanded_indices(st, events)[j],
        forall|j: int|
            0 <= j < expanded_indices(st, events).len() ==> {
                let k = #[trigger] expanded_indices(st, events)[j];
                0 <= k < events.len() && is_expanded(st, events, k)
            },
        forall|k: int|
            0 <= k < events.len() && #[trigger] is_expanded(st, events, k) ==> expanded_indices(
                st,
                events,
            ).contains(k),
    decreases events.len(),
{
    if events.len() > 0 {
        let fewer = events.drop_last();
        let n = fewer.len() as int;
        let before = expanded_indices(st, fewer);
        let all = expanded_indices(st, events);
        lemma_expanded_indices(st, fewer);
        assert forall|k: int| 0 <= k < n implies is_expanded(st, events, k) == is_expanded(
            st,
            fewer,
            k,
        ) by {
            assert(events.take(k) =~= fewer.take(k));
        }
        assert forall|j: int| 0 <= j < all.len() implies {
            let k = #[trigger] all[j];
            0 <= k < events.len() && is_expanded(st, events, k)
        } by {
            if j < before.len() {
                assert(all[j] == before[j]);
            }
        }
        assert forall|i: int, j: int| 0 <= i < j < all.len() implies #[trigger] all[i]
            < #[trigger] all[j] by {
            assert(all[i] == before[i]);
            if j < before.len() {
                assert(all[j] == before[j]);
            }
        }
        assert forall|k: int| 0 <= k < events.len() && #[trigger] is_expanded(
            st,
            events,
            k,
        ) implies all.contains(k) by {
            if k < n {
                assert(is_expanded(st, fewer, k));
                let j = choose|j: int| 0 <= j < before.len() && before[j] == k;
                assert(all[j] == k);
            } else {
                assert(all[before.len() as int] == k);
            }
        }
    }
}

proof fn lemma_replacements(st: ExpansionState, events: Seq<ExpansionEvent>)
    requires
        on_track(st),
        st.next == 0,
        st.replacements.len() == 0,
        events.len() <= st.placeholders.len(),
    ensures
        after_events(st, events).replacements == expansion_replacements(st, events),
    decreases events.len(),
{
    let have = after_events(st, events).replacements;
    let want = expansion_replacements(st, events);
    if events.len() > 0 {
        let fewer = events.drop_last();
        let n = fewer.len() as int;
        let before = after_events(st, fewer);
        lemma_replacements(st, fewer);
        lemma_expanded_indices(st, fewer);
        law_placeholders_are_dealt_with_in_turn(st, fewer);
        assert(events.take(n) =~= fewer);
        assert forall|j: int| 0 <= j < before.replacements.len() implies want[j]
            == #[trigger] before.replacements[j] by {
            let k = expanded_indices(st, fewer)[j];
            assert(expanded_indices(st, events)[j] == k);
            assert(events[k] == fewer[k]);
        }
        if is_expanded(st, events, n) {
            assert(have == before.replacements.push(replacement_at(st, events, n)));
        } else {
            assert(have == before.replacements);
        }
    }
    assert(have =~= want);
}

/// What is replaced is each placeholder whose command was run and of which
/// something is kept, once, in the order of the text and by the block for it; and
/// nothing else.
pub proof fn law_replaced_are_the_expanded(
    contents: Seq<char>,
    skill_name: Seq<char>,
    allowed_commands: Seq<Seq<char>>,
    limits: ExpansionLimits,
    events: Seq<ExpansionEvent>,
)
    requires
        events.len() <= inline_placeholders(contents).len(),
    ensures
        ({
            let st = initial_state(contents, skill_name, allowed_commands, limits);
            let replacements = after_events(st, events).replacements;
            let expanded = expanded_indices(st, events);
            &&& replacements.len() == expanded.len()
            &&& forall|j: int|
                0 <= j < expanded.len() ==> #[trigger] replacements[j] == replacement_at(
                    st,
                    events,
                    expanded[j],
                )
            &&& forall|i: int, j: int|
                0 <= i < j < expanded.len() ==> #[trigger] expanded[i] < #[trigger] expanded[j]
            &&& forall|k: int| #[trigger]
                expanded.contains(k) <==> 0 <= k < events.len() && is_expanded(st, events, k)
        }),
{
    let st = initial_state(contents, skill_name, allowed_commands, limits);
    lemma_initial_on_track(contents, skill_name, allowed_commands, limits);
    lemma_replacements(st, events);
    lemma_expanded_indices(st, events);
}

/// A text of which no placeholder is expanded is left as it is.
pub proof fn law_text_without_expansion_is_kept(
    contents: Seq<char>,
    skill_name: Seq<char>,
    allowed_commands: Seq<Seq<char>>,
    limits: ExpansionLimits,
    events: Seq<ExpansionEvent>,
)
    requires
        events.len() <= inline_placeholders(contents).len(),
        forall|k: int|
            0 <= k < events.len() ==> !(#[trigger] is_expanded(
                initial_state(contents, skill_name, allowed_commands, limits),
                events,
                k,
            )),
    ensures
        finished(
            after_events(
                initial_state(contents, skill_name, allowed_commands, limits),
                events,
            ),
        ).contents == contents,
{
    let st = initial_state(contents, skill_name, allowed_commands, limits);
    let end = after_events(st, events);
    lemma_initial_on_track(contents, skill_name, allowed_commands, limits);
    lemma_replacements(st, events);
    law_placeholders_are_dealt_with_in_turn(st, events);
    law_nothing_replaced(contents);
    lemma_expanded_indices(st, events);
    if end.replacements.len() > 0 {
        assert(is_expanded(st, events, expanded_indices(st, events)[0]));
    }
    assert(end.replacements =~= Seq::<ReplacementView>::empty());
}

/// A text none of whose commands is on the allowlist is left as it is, whatever
/// the commands would do.
pub proof fn law_text_off_the_allowlist_is_kept(
    contents: Seq<char>,
    skill_name: Seq<char>,
    allowed_commands: Seq<Seq<char>>,
    limits: ExpansionLimits,
    events: Seq<ExpansionEvent>,
)
    requires
        events.len() <= inline_placeholders(contents).len(),
        forall|k: int|
            0 <= k < inline_placeholders(contents).len() ==> !allowed_commands.contains(
                (#[trigger] inline_placeholders(contents)[k]).command,
            ),
    ensures
        finished(
            after_events(
                initial_state(contents, skill_name, allowed_commands, limits),
                events,
            ),
        ).contents == contents,
{
    let st = initial_state(contents, skill_name, allowed_commands, limits);
    assert forall|k: int| 0 <= k < events.len() implies !(#[trigger] is_expanded(
        st,
        events,
        k,
    )) by {
        if is_run(st, events, k) {
            law_only_allowed_commands_run(
                contents,
                skill_name,
                allowed_commands,
                limits,
                events,
                k,
            );
            assert(!allowed_commands.contains(inline_placeholders(contents)[k].command));
        }
    }
    law_text_without_expansion_is_kept(contents, skill_name, allowed_commands, limits, events);
}

proof fn lemma_events_move_on(st: ExpansionState, events: Seq<ExpansionEvent>)
    ensures
        after_events(st, events).next == st.next + events.len(),
        after_events(st, events).placeholders == st.placeholders,
        after_events(st, events).skill_name == st.skill_name,
    decreases events.len(),
{
    if events.len() > 0 {
        lemma_events_move_on(st, events.drop_last());
    }
}

/// The warnings are those of the placeholders in turn, one for each at most, and a
/// placeholder that is not expanded has one.
pub proof fn law_no_placeholder_goes_unsaid(st: ExpansionState, events: Seq<ExpansionEvent>)
    ensures
        ({
            let end = after_events(st, events);
            let replaced = end.replacements.len() - st.replacements.len();
            let warned = end.warnings.len() - st.warnings.len();
            &&& end.warnings == st.warnings + warnings_in_turn(st, events)
            &&& forall|k: int|
                0 <= k < events.len() && !#[trigger] is_expanded(st, events, k) ==> warning_at(
                    st,
                    events,
                    k,
                ) is Some
            &&& events.len() - replaced <= warned <= events.len()
            &&& 0 <= replaced <= events.len()
        }),
    decreases events.len(),
{
    let have = after_events(st, events).warnings;
    if events.len() > 0 {
        let fewer = events.drop_last();
        law_no_placeholder_goes_unsaid(st, fewer);
        lemma_events_move_on(st, fewer);
        assert(events.take(events.len() - 1) =~= fewer);
        match warning_at(st, events, events.len() - 1) {
            Some(warning) => {
                assert(have == after_events(st, fewer).warnings.push(warning));
            },
            None => {
                assert(have == after_events(st, fewer).warnings);
            },
        }
    }
    assert(have =~= st.warnings + warnings_in_turn(st, events));
}

/// The characters of all the replacements.
pub open spec fn total_chars(replacements: Seq<ReplacementView>) -> int
    decreases replacements.len(),
{
    if replacements.len() == 0 {
        0
    } else {
        total_chars(replacements.drop_last()) + replacements.last().text.len()
    }
}

/// What is counted against the limit for the text is the length of all the
/// blocks so far, as far as a `usize` holds it.
pub proof fn law_total_counts_the_blocks(
    contents: Seq<char>,
    skill_name: Seq<char>,
    allowed_commands: Seq<Seq<char>>,
    limits: ExpansionLimits,
    events: Seq<ExpansionEvent>,
)
    ensures
        ({
            let end = after_events(
                initial_state(contents, skill_name, allowed_commands, limits),
                events,
            );
            &&& 0 <= total_chars(end.replacements)
            &&& end.total_output_chars == saturating_total(0, total_chars(end.replacements))
        }),
    decreases events.len(),
{
    if events.len() > 0 {
        let st = initial_state(contents, skill_name, allowed_commands, limits);
        let before = after_events(st, events.drop_last());
        let end = after_events(st, events);
        law_total_counts_the_blocks(
            contents,
            skill_name,
            allowed_commands,
            limits,
            events.drop_last(),
        );
        if skip_reason(before, events.last().elapsed) is None && events.last().result is Ok {
            assert(end.replacements.drop_last() =~= before.replacements);
        }
    }
}

/// A command that could not be run, because it was refused, blocked by a hook or
/// turned down by the shell, leaves its placeholder in the text, and what it was
/// answered is handed on as a warning.
pub proof fn law_refused_command_is_answered(
    st: ExpansionState,
    timeout_seconds: u64,
    error: Seq<char>,
)
    ensures
        ({
            let end = after_run(st, timeout_seconds, Err(error));
            &&& end.replacements == st.replacements
            &&& end.total_output_chars == st.total_output_chars
            &&& end.warnings == st.warnings.push(
                error_warning(st.placeholders[st.next].command, st.skill_name, error),
            )
        }),
{
}

/// The text that a replacement takes the place of, in its place.
pub open spec fn taken_back(bytes: Seq<u8>, replacement: ReplacementView) -> ReplacementView {
    ReplacementView {
        start: replacement.start,
        end: replacement.end,
        text: text_between(bytes, replacement.start, replacement.end),
    }
}

/// Only the expanded placeholders change: with each of them put back in place of
/// its block, the text is what it was.
pub proof fn law_text_around_expansions_is_kept(
    contents: Seq<char>,
    skill_name: Seq<char>,
    allowed_commands: Seq<Seq<char>>,
    limits: ExpansionLimits,
    events: Seq<ExpansionEvent>,
)
    requires
        events.len() <= inline_placeholders(contents).len(),
    ensures
        ({
            let end = after_events(
                initial_state(contents, skill_name, allowed_commands, limits),
                events,
            );
            let bytes = encode_utf8(contents);
            spliced(
                bytes,
                end.replacements.map_values(|r: ReplacementView| taken_back(bytes, r)),
            ) == contents
        }),
{
    let st = initial_state(contents, skill_name, allowed_commands, limits);
    let end = after_events(st, events);
    let bytes = encode_utf8(contents);
    let restored = end.replacements.map_values(|r: ReplacementView| taken_back(bytes, r));
    lemma_initial_on_track(contents, skill_name, allowed_commands, limits);
    law_placeholders_are_dealt_with_in_turn(st, events);
    lemma_replacements(st, events);
    lemma_expanded_indices(st, events);
    assert forall|i: int| 0 <= i < restored.len() implies #[trigger] fits_at(
        bytes,
        restored,
        i,
    ) by {
        assert(fits_at(bytes, end.replacements, i));
    }
    assert forall|i: int| 0 <= i < restored.len() implies (#[trigger] restored[i]).start
        <= restored[i].end by {
        law_placeholder_is_written(contents, expanded_indices(st, events)[i]);
    }
    law_rest_is_kept(contents, restored);
}

/// Nothing that is put into a text closes the skill that the text belongs to.
pub proof fn law_no_replacement_closes_the_skill(
    contents: Seq<char>,
    skill_name: Seq<char>,
    allowed_commands: Seq<Seq<char>>,
    limits: ExpansionLimits,
    events: Seq<ExpansionEvent>,
    j: int,
)
    requires
        events.len() <= inline_placeholders(contents).len(),
        0 <= j < after_events(
            initial_state(contents, skill_name, allowed_commands, limits),
            events,
        ).replacements.len(),
    ensures
        !contains_text(
            after_events(
                initial_state(contents, skill_name, allowed_commands, limits),
                events,
            ).replacements[j].text,
            "</skill>"@,
        ),
{
    let st = initial_state(contents, skill_name, allowed_commands, limits);
    lemma_initial_on_track(contents, skill_name, allowed_commands, limits);
    lemma_replacements(st, events);
    let k = expanded_indices(st, events)[j];
    law_block_closes_once(st.placeholders[k].command, events[k].result->Ok_0);
}

/// The next placeholder is passed over where as many were looked at as the skill
/// lets; else where its command is not word for word one of the allowlist; else
/// where the blocks have used up the output for the text; else where two minutes
/// have gone by. In every other case its command is run.
pub proof fn law_command_is_run_unless(st: ExpansionState, elapsed: nat)
    requires
        0 <= st.next < st.placeholders.len(),
    ensures
        ({
            let command = st.placeholders[st.next].command;
            let reason = skip_reason(st, elapsed);
            let listed = exists|i: int|
                0 <= i < st.allowed_commands.len() && st.allowed_commands[i] == command;
            &&& st.limits.max_placeholders <= st.next ==> reason == Some(
                SkipReason::MaxPlaceholders,
            )
            &&& st.next < st.limits.max_placeholders && !listed ==> reason == Some(
                SkipReason::NotAllowlisted,
            )
            &&& st.next < st.limits.max_placeholders && listed && st.limits.max_total_output_chars
                <= st.total_output_chars ==> reason == Some(SkipReason::MaxTotalOutput)
            &&& st.next < st.limits.max_placeholders && listed && st.total_output_chars
                < st.limits.max_total_output_chars && 120_000_000_000 <= elapsed ==> reason == Some(
                SkipReason::RuntimeBudget,
            )
            &&& st.next < st.limits.max_placeholders && listed && st.total_output_chars
                < st.limits.max_total_output_chars && elapsed < 120_000_000_000 ==> reason is None
        }),
{
    let command = st.placeholders[st.next].command;
    assert(st.allowed_commands.contains(command) <==> exists|i: int|
        0 <= i < st.allowed_commands.len() && st.allowed_commands[i] == command);
}

/// A command is granted all the output that it may have, unless less is left for
/// the text: then it is granted what is left. It is granted all the time that it
/// may take, unless fewer whole seconds are left of the two minutes: then it is
/// granted those, and one second at the least.
pub proof fn law_grant_is_all_that_is_left(st: ExpansionState, elapsed: nat)
    requires
        0 <= st.next < st.placeholders.len(),
        0 <= st.total_output_chars < st.limits.max_total_output_chars,
        elapsed < 120_000_000_000,
    ensures
        ({
            let granted = granted_request(st, elapsed);
            let output_left = st.limits.max_total_output_chars - st.total_output_chars;
            let time_left = 120_000_000_000 - elapsed;
            let seconds = granted.timeout_seconds;
            &&& granted.command == st.placeholders[st.next].command
            &&& st.limits.max_output_chars <= output_left ==> granted.output_limit
                == st.limits.max_output_chars
            &&& output_left < st.limits.max_output_chars ==> granted.output_limit == output_left
            &&& st.limits.timeout_seconds <= 1 ==> seconds == st.limits.timeout_seconds
            &&& st.limits.timeout_seconds * 1_000_000_000 <= time_left ==> seconds
                == st.limits.timeout_seconds
            &&& st.limits.timeout_seconds > 1 && time_left < st.limits.timeout_seconds
                * 1_000_000_000 ==> 1 <= seconds && time_left < (seconds + 1) * 1_000_000_000 && (
            seconds == 1 || seconds * 1_000_000_000 <= time_left)
        }),
{
}

/// A placeholder that is passed over is left in the text and named in a warning
/// with the skill and the reason; nothing else changes.
pub proof fn law_skipped_placeholder_is_named(st: ExpansionState)
    ensures
        ({
            let note = "Skipped dynamic context command `"@ + st.placeholders[st.next].command
                + "` in skill `"@ + st.skill_name + "`"@;
            &&& after_skip(st, SkipReason::MaxPlaceholders) == (ExpansionState {
                next: st.next + 1,
                warnings: st.warnings.push(note + " because max_placeholders was reached."@),
                ..st
            })
            &&& after_skip(st, SkipReason::NotAllowlisted) == (ExpansionState {
                next: st.next + 1,
                warnings: st.warnings.push(note + " because it is not allowlisted."@),
                ..st
            })
            &&& after_skip(st, SkipReason::MaxTotalOutput) == (ExpansionState {
                next: st.next + 1,
                warnings: st.warnings.push(note + " because max_total_output_chars was reached."@),
                ..st
            })
            &&& after_skip(st, SkipReason::RuntimeBudget) == (ExpansionState {
                next: st.next + 1,
                warnings: st.warnings.push(
                    note + " because the dynamic context runtime budget was reached."@,
                ),
                ..st
            })
        }),
{
}

/// A placeholder whose command was run is replaced, from its first byte to its
/// last, by the block for the command and its output; the length of the block is
/// counted, and nothing else changes but for a warning.
pub proof fn law_run_command_is_replaced(
    st: ExpansionState,
    timeout_seconds: u64,
    output: RunOutputView,
)
    requires
        0 <= st.total_output_chars,
    ensures
        ({
            let p = st.placeholders[st.next];
            let block = rendered_block(p.command, output);
            let end = after_run(st, timeout_seconds, Ok(output));
            &&& end == (ExpansionState {
                next: st.next + 1,
                replacements: st.replacements.push(
                    ReplacementView { start: p.start, end: p.end, text: block },
                ),
                total_output_chars: end.total_output_chars,
                warnings: end.warnings,
                ..st
            })
            &&& st.total_output_chars + block.len() <= usize::MAX ==> end.total_output_chars
                == st.total_output_chars + block.len()
            &&& st.total_output_chars + block.len() > usize::MAX ==> end.total_output_chars
                == usize::MAX
        }),
{
}

/// Of a command that was run there is one warning at most: that it timed out, else
/// that it failed, else with which status it exited if not with 0, else that its
/// output was cut.
pub proof fn law_outcome_is_warned_of(
    st: ExpansionState,
    timeout_seconds: u64,
    output: RunOutputView,
    code: i32,
)
    ensures
        ({
            let note = "Dynamic context command `"@ + st.placeholders[st.next].command
                + "` in skill `"@ + st.skill_name + "`"@;
            let warnings = after_run(st, timeout_seconds, Ok(output)).warnings;
            let ended = !output.timed_out && output.failure is None;
            &&& output.timed_out ==> warnings == st.warnings.push(
                note + (" timed out after "@ + decimal(timeout_seconds as nat) + "s."@),
            )
            &&& !output.timed_out && output.failure is Some ==> warnings == st.warnings.push(
                note + (" failed: "@ + output.failure->0),
            )
            &&& ended && output.exit_code is None ==> warnings == st.warnings.push(
                note + (" exited with status "@ + "None"@ + "."@),
            )
            &&& ended && output.exit_code == Some(code) && code != 0 ==> warnings
                == st.warnings.push(
                note + (" exited with status "@ + ("Some("@ + signed_decimal(code as int) + ")"@)
                    + "."@),
            )
            &&& ended && output.exit_code == Some(0i32) && output.truncated ==> warnings
                == st.warnings.push(note + " was truncated."@)
            &&& ended && output.exit_code == Some(0i32) && !output.truncated ==> warnings
                == st.warnings
        }),
{
}

/// A command that could not be run leaves its placeholder in the text, and the
/// answer to it is handed on in a warning with the command and the skill; nothing
/// else changes.
pub proof fn law_answer_is_handed_on(st: ExpansionState, timeout_seconds: u64, error: Seq<char>)
    ensures
        after_run(st, timeout_seconds, Err(error)) == (ExpansionState {
            next: st.next + 1,
            warnings: st.warnings.push(
                "Skipped dynamic context command `"@ + st.placeholders[st.next].command
                    + "` in skill `"@ + st.skill_name + "`"@ + (": "@ + error),
            ),
            ..st
        }),
{
}

/// The expansion comes to the text with its replacements made, and to the warnings.
pub proof fn law_expansion_comes_to(st: ExpansionState)
    ensures
        finished(st).contents == spliced(encode_utf8(st.contents), st.replacements),
        finished(st).warnings == st.warnings,
{
}

/// A text without placeholders is at its end at once, as it was. So is one of a
/// repository's skill in a project that is not trusted, with a warning, and else
/// one for which there is no environment, with another.
pub proof fn law_text_is_at_its_end_at_once(
    contents: Seq<char>,
    skill: SkillMetadata,
    context: SkillDynamicContext,
    project_trusted: bool,
    environment_selected: bool,
)
    ensures
        ({
            let start = begun(
                contents,
                skill,
                context,
                project_trusted,
                environment_selected,
            );
            let written = inline_placeholders(contents).len() > 0;
            let distrusted = skill.scope == SkillScope::Repo && !project_trusted;
            &&& !written ==> start == Err::<ExpansionState, ContentsView>(
                ContentsView { contents, warnings: Seq::empty() },
            )
            &&& written && distrusted ==> start == Err::<ExpansionState, ContentsView>(
                ContentsView {
                    contents,
                    warnings: seq![
                        "Skipping dynamic context for skill `"@ + skill.name@
                            + "` because repo-scoped dynamic context requires a trusted project."@,
                    ],
                },
            )
            &&& written && !distrusted && !environment_selected ==> start == Err::<
                ExpansionState,
                ContentsView,
            >(
                ContentsView {
                    contents,
                    warnings: seq![
                        "Skipping dynamic context for skill `"@ + skill.name@
                            + "` because no execution environment is selected."@,
                    ],
                },
            )
        }),
{
}

/// Trust takes nothing away: a text with placeholders is expanded, where there is
/// an environment, if its skill is none of a repository, whatever the project's
/// trust, and if the project is trusted, whatever the skill. The limits that the
/// skill sets hold, and a default holds only where the skill sets none.
pub proof fn law_text_is_expanded_under_its_limits(
    contents: Seq<char>,
    skill: SkillMetadata,
    context: SkillDynamicContext,
    project_trusted: bool,
)
    requires
        inline_placeholders(contents).len() > 0,
        skill.scope != SkillScope::Repo || project_trusted,
    ensures
        ({
            let start = begun(contents, skill, context, project_trusted, true);
            let st = start->Ok_0;
            &&& start is Ok
            &&& st.contents == contents
            &&& st.skill_name == skill.name@
            &&& st.placeholders == inline_placeholders(contents)
            &&& st.next == 0
            &&& st.total_output_chars == 0
            &&& st.replacements.len() == 0
            &&& st.warnings.len() == 0
            &&& st.allowed_commands.len() == context.allowed_commands@.len()
            &&& forall|i: int|
                0 <= i < st.allowed_commands.len() ==> #[trigger] st.allowed_commands[i]
                    == context.allowed_commands@[i]@
            &&& match context.timeout_seconds {
                Some(n) => st.limits.timeout_seconds == n,
                None => st.limits.timeout_seconds == 10,
            }
            &&& match context.max_output_chars {
                Some(n) => st.limits.max_output_chars == n,
                None => st.limits.max_output_chars == 20_000,
            }
            &&& match context.max_total_output_chars {
                Some(n) => st.limits.max_total_output_chars == n,
                None => st.limits.max_total_output_chars == 50_000,
            }
            &&& match context.max_placeholders {
                Some(n) => st.limits.max_placeholders == n,
                None => st.limits.max_placeholders == 16,
            }
        }),
{
}

/// A limit that a skill sets is the one that holds of every command of its text
/// that is run, whatever came of the placeholders before it: the command is granted
/// no more output and no more time than the skill sets, and just that much where
/// that much is left; and it is run only while fewer placeholders and fewer
/// characters were dealt with than the skill sets.
pub proof fn law_set_limits_hold(
    contents: Seq<char>,
    skill: SkillMetadata,
    context: SkillDynamicContext,
    project_trusted: bool,
    events: Seq<ExpansionEvent>,
    elapsed: nat,
    n: usize,
    seconds: u64,
)
    requires
        events.len() < inline_placeholders(contents).len(),
        skill.scope != SkillScope::Repo || project_trusted,
        skip_reason(
            after_events(begun(contents, skill, context, project_trusted, true)->Ok_0, events),
            elapsed,
        ) is None,
    ensures
        ({
            let st = after_events(
                begun(contents, skill, context, project_trusted, true)->Ok_0,
                events,
            );
            let granted = granted_request(st, elapsed);
            &&& granted.command == inline_placeholders(contents)[events.len() as int].command
            &&& exists|i: int|
                0 <= i < context.allowed_commands@.len() && #[trigger] context.allowed_commands@[i]@
                    == granted.command
            &&& context.max_output_chars == Some(n) ==> granted.output_limit <= n && (
            st.total_output_chars + n <= st.limits.max_total_output_chars ==> granted.output_limit
                == n)
            &&& context.max_total_output_chars == Some(n) ==> st.total_output_chars
                + granted.output_limit <= n && st.total_output_chars < n
            &&& context.max_placeholders == Some(n) ==> events.len() < n
            &&& context.timeout_seconds == Some(seconds) ==> granted.timeout_seconds <= seconds && (
            elapsed + seconds * 1_000_000_000 <= 120_000_000_000 ==> granted.timeout_seconds
                == seconds)
        }),
{
    let start = begun(contents, skill, context, project_trusted, true)->Ok_0;
    let st = after_events(start, events);
    law_text_is_expanded_under_its_limits(contents, skill, context, project_trusted);
    lemma_initial_on_track(contents, start.skill_name, start.allowed_commands, start.limits);
    assert(start =~= initial_state(
        contents,
        start.skill_name,
        start.allowed_commands,
        start.limits,
    ));
    law_placeholders_are_dealt_with_in_turn(start, events);
    law_command_is_run_unless(st, elapsed);
    law_grant_is_all_that_is_left(st, elapsed);
    let command = st.placeholders[st.next].command;
    let i = choose|i: int|
        0 <= i < st.allowed_commands.len() && st.allowed_commands[i] == command;
    assert(context.allowed_commands@[i]@ == start.allowed_commands[i]);
}

/// What a list of strings, a request and a result stand for is what stands in them.
pub proof fn law_views_are_the_values(
    list: Seq<String>,
    i: int,
    request: CommandRequest,
    output: CommandRunOutput,
    error: String,
)
    requires
        0 <= i < list.len(),
    ensures
        string_views(list).len() == list.len(),
        string_views(list)[i] == list[i]@,
        request@.command == request.command@,
        request@.timeout_seconds == request.timeout_seconds,
        request@.output_limit == request.output_limit,
        run_result_view(Ok(output)) == Ok::<RunOutputView, Seq<char>>(output@),
        run_result_view(Err(error)) == Err::<RunOutputView, Seq<char>>(error@),
{
}

/// What an expansion is for: in a text with one placeholder, whose command the
/// allowlist holds and may be run, the placeholder becomes the block for the
/// command and its output, and the text on both sides of it stays as it is. Where
/// the command is not on the allowlist, the whole text stays as it is.
pub proof fn law_placeholder_becomes_its_block(
    a: Seq<char>,
    command: Seq<char>,
    b: Seq<char>,
    skill: SkillMetadata,
    context: SkillDynamicContext,
    project_trusted: bool,
    elapsed: nat,
    output: RunOutputView,
)
    requires
        forall|i: int, j: int| #[trigger]
            a[i] == '!' && 0 <= i && j == i + 1 && j < a.len() ==> #[trigger] a[j] != '`',
        forall|i: int, j: int| #[trigger]
            b[i] == '!' && 0 <= i && j == i + 1 && j < b.len() ==> #[trigger] b[j] != '`',
        command.len() > 0,
        forall|i: int|
            0 <= i < command.len() ==> (#[trigger] command[i]) != '`' && command[i] != '\n'
                && command[i] != '\r',
        skill.scope != SkillScope::Repo || project_trusted,
        context.max_placeholders != Some(0usize),
        context.max_total_output_chars != Some(0usize),
        elapsed < 120_000_000_000,
    ensures
        ({
            let contents = a + seq!['!', '`'] + command + seq!['`'] + b;
            let start = begun(contents, skill, context, project_trusted, true);
            let event = ExpansionEvent { elapsed, result: Ok(output) };
            let end = after_events(start->Ok_0, seq![event]);
            let listed = exists|i: int|
                0 <= i < context.allowed_commands@.len() && #[trigger] context.allowed_commands@[i]@
                    == command;
            &&& start is Ok
            &&& end.next == end.placeholders.len()
            &&& listed ==> finished(end).contents == a + rendered_block(command, output) + b
            &&& !listed ==> finished(end).contents == contents
        }),
{
    let written = a + seq!['!', '`'] + command + seq!['`'];
    let contents = written + b;
    let event = ExpansionEvent { elapsed, result: Ok(output) };
    law_first_placeholder_is_found(a, command, b);
    law_text_without_opening_has_none(b);
    law_text_is_expanded_under_its_limits(contents, skill, context, project_trusted);
    let start = begun(contents, skill, context, project_trusted, true)->Ok_0;
    let end = after_events(start, seq![event]);
    reveal_with_fuel(after_events, 2);
    assert(seq![event].drop_last() =~= Seq::<ExpansionEvent>::empty());
    assert(end == after_event(start, event));
    law_command_is_run_unless(start, elapsed);
    law_skipped_placeholder_is_named(start);
    law_nothing_replaced(contents);
    assert(start.replacements =~= Seq::<ReplacementView>::empty());
    let listed = exists|i: int|
        0 <= i < context.allowed_commands@.len() && #[trigger] context.allowed_commands@[i]@
            == command;
    if listed {
        let i = choose|i: int|
            0 <= i < context.allowed_commands@.len() && #[trigger] context.allowed_commands@[i]@
                == command;
        assert(start.allowed_commands[i] == command);
        let granted = granted_request(start, elapsed);
        law_run_command_is_replaced(start, granted.timeout_seconds, output);
        let behind = seq!['!', '`'] + command + seq!['`'] + b;
        assert(contents =~= a + behind);
        let none = Seq::<ReplacementView>::empty();
        law_replacement_takes_its_place(
            contents,
            a,
            behind,
            written,
            b,
            none,
            rendered_block(command, output),
        );
        assert(contents.take(contents.len() - behind.len()) =~= a);
        law_expansion_comes_to(end);
    } else {
        assert forall|i: int| 0 <= i < start.allowed_commands.len() implies
            start.allowed_commands[i] != command by {
            assert(start.allowed_commands[i] == context.allowed_commands@[i]@);
        }
        law_expansion_comes_to(end);
    }
}

} // verus!
