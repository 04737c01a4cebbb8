//! The texts of the skills that a turn takes in.

use crate::expansion::{string_views, ContentsView, SkillContentsExpansion};
use crate::skill::{SkillDynamicContext, SkillMetadata};
use vstd::prelude::*;

verus! {

/// The text of a skill that is taken in.
#[derive(Debug, Clone, PartialEq, Eq)]
pub struct SkillInjection {
    /// The name of the skill.
    pub name: String,
    /// The path of the file that the text was read from.
    pub path: String,
    pub contents: String,
}

/// What a [`SkillInjection`] stands for.
#[verifier::ext_equal]
pub struct InjectionView {
    pub name: Seq<char>,
    pub path: Seq<char>,
    pub contents: Seq<char>,
}

impl View for SkillInjection {
    type V = InjectionView;

    open spec fn view(&self) -> InjectionView {
        InjectionView { name: self.name@, path: self.path@, contents: self.contents@ }
    }
}

/// A skill that is mentioned in the turn, and what it says of the commands in its
/// text, where it says anything.
#[derive(Debug, Clone, PartialEq, Eq)]
pub struct MentionedSkill {
    pub skill: SkillMetadata,
    pub dynamic_context: Option<SkillDynamicContext>,
}

impl MentionedSkill {
    /// Whether placeholders in the skill's text are expanded.
    pub open spec fn expands(self) -> bool {
        self.dynamic_context is Some && self.dynamic_context->0.inline_command_placeholders
    }
}

/// Whether the skill at index `k` is the one that a path stands for: the last of
/// those mentioned with that path.
pub open spec fn stands_for(mentioned: Seq<MentionedSkill>, path: Seq<char>, k: int) -> bool {
    &&& 0 <= k < mentioned.len()
    &&& mentioned[k].skill.path@ == path
    &&& forall|j: int| k < j < mentioned.len() ==> (#[trigger] mentioned[j]).skill.path@ != path
}

/// The skill whose word on the commands in a text is taken: the last one that is
/// mentioned with the text's path, if its placeholders are expanded at all.
pub open spec fn target_of(mentioned: Seq<MentionedSkill>, path: Seq<char>) -> Option<int> {
    if exists|k: int| stands_for(mentioned, path, k) && mentioned[k].expands() {
        Some(choose|k: int| stands_for(mentioned, path, k) && mentioned[k].expands())
    } else {
        None
    }
}

/// A path stands for one skill at most.
pub proof fn law_path_stands_for_one(
    mentioned: Seq<MentionedSkill>,
    path: Seq<char>,
    j: int,
    k: int,
)
    requires
        stands_for(mentioned, path, j),
        stands_for(mentioned, path, k),
    ensures
        j == k,
{
    assert(mentioned[j].skill.path@ == mentioned[k].skill.path@);
}

/// The skill whose word on the commands in a text is taken.
pub fn expansion_target(injection: &SkillInjection, mentioned: &Vec<MentionedSkill>) -> (r: Option<
    usize,
>)
    ensures
        match r {
            Some(k) => target_of(mentioned@, injection.path@) == Some(k as int),
            None => target_of(mentioned@, injection.path@) is None,
        },
        match r {
            Some(k) => stands_for(mentioned@, injection.path@, k as int)
                && mentioned@[k as int].expands(),
            None => forall|k: int|
                #[trigger] stands_for(mentioned@, injection.path@, k) ==> !mentioned@[k].expands(),
        },
{
    let mut i: usize = mentioned.len();
    while i > 0
        invariant
            i <= mentioned.len(),
            forall|j: int|
                i <= j < mentioned.len() ==> (#[trigger] mentioned@[j]).skill.path@
                    != injection.path@,
        decreases i,
    {
        i -= 1;
        if mentioned[i].skill.path == injection.path {
            assert(stands_for(mentioned@, injection.path@, i as int));
            if let Some(context) = &mentioned[i].dynamic_context {
                if context.inline_command_placeholders {
                    proof {
                        assert(mentioned@[i as int].expands());
                        law_path_stands_for_one(
                            mentioned@,
                            injection.path@,
                            i as int,
                            target_of(mentioned@, injection.path@)->0,
                        );
                    }
                    return Some(i);
                }
            }
            assert forall|k: int| #[trigger]
                stands_for(mentioned@, injection.path@, k) implies !mentioned@[k].expands() by {
                law_path_stands_for_one(mentioned@, injection.path@, i as int, k);
            }
            return None;
        }
    }
    None
}

/// The texts that were taken in, expanded, and what there is to warn of.
#[derive(Debug, Clone, PartialEq, Eq)]
pub struct SkillDynamicContextExpansion {
    pub items: Vec<SkillInjection>,
    pub warnings: Vec<String>,
}

/// What a [`SkillDynamicContextExpansion`] stands for.
#[verifier::ext_equal]
pub struct ItemsView {
    pub items: Seq<InjectionView>,
    pub warnings: Seq<Seq<char>>,
}

/// What a list of texts stands for.
pub open spec fn injection_views(list: Seq<SkillInjection>) -> Seq<InjectionView> {
    list.map_values(|i: SkillInjection| i@)
}

impl View for SkillDynamicContextExpansion {
    type V = ItemsView;

    open spec fn view(&self) -> ItemsView {
        ItemsView {
            items: injection_views(self.items@),
            warnings: string_views(self.warnings@),
        }
    }
}

/// A text as it is taken in: as it was, or as its expansion has it.
pub open spec fn taken_in(injection: InjectionView, outcome: Option<ContentsView>) -> InjectionView {
    match outcome {
        Some(expansion) => InjectionView { contents: expansion.contents, ..injection },
        None => injection,
    }
}

/// What there is to warn of in a text.
pub open spec fn warnings_of(outcome: Option<ContentsView>) -> Seq<Seq<char>> {
    match outcome {
        Some(expansion) => expansion.warnings,
        None => Seq::empty(),
    }
}

/// What the expansions so far come to with one more.
pub open spec fn recorded(
    so_far: ItemsView,
    injection: InjectionView,
    outcome: Option<ContentsView>,
) -> ItemsView {
    ItemsView {
        items: so_far.items.push(taken_in(injection, outcome)),
        warnings: so_far.warnings + warnings_of(outcome),
    }
}

/// What an expansion stands for, where there is one.
pub open spec fn outcome_view(outcome: Option<SkillContentsExpansion>) -> Option<ContentsView> {
    match outcome {
        Some(expansion) => Some(expansion@),
        None => None,
    }
}

impl SkillDynamicContextExpansion {
    /// No text taken in.
    pub fn new() -> (r: SkillDynamicContextExpansion)
        ensures
            r@ == (ItemsView { items: Seq::empty(), warnings: Seq::empty() }),
    {
        let r = SkillDynamicContextExpansion { items: Vec::new(), warnings: Vec::new() };
        assert(r@ =~= (ItemsView { items: Seq::empty(), warnings: Seq::empty() }));
        r
    }

    /// Takes in one more text, with its expansion where it was expanded.
    pub fn record(&mut self, injection: SkillInjection, outcome: Option<SkillContentsExpansion>)
        ensures
            final(self)@ == recorded(old(self)@, injection@, outcome_view(outcome)),
    {
        let ghost before = self@;
        match outcome {
            Some(expansion) => {
                let ghost warnings = expansion.warnings@;
                let ghost old_warnings = self.warnings@;
                let mut more = expansion.warnings;
                self.warnings.append(&mut more);
                assert(string_views(self.warnings@) =~= string_views(old_warnings) + string_views(
                    warnings,
                ));
                self.items.push(
                    SkillInjection {
                        name: injection.name,
                        path: injection.path,
                        contents: expansion.contents,
                    },
                );
            },
            None => {
                self.items.push(injection);
            },
        }
        assert(self@ =~= recorded(before, injection@, outcome_view(outcome)));
    }
}

/// What the expansions of a list of texts come to, each with its outcome.
pub open spec fn all_recorded(
    injections: Seq<InjectionView>,
    outcomes: Seq<Option<ContentsView>>,
) -> ItemsView
    decreases injections.len(),
{
    if injections.len() == 0 {
        ItemsView { items: Seq::empty(), warnings: Seq::empty() }
    } else {
        recorded(
            all_recorded(injections.drop_last(), outcomes.drop_last()),
            injections.last(),
            outcomes.last(),
        )
    }
}

/// Every text is taken in once, in its place and under its name and path; one that
/// is not expanded is taken in as it was.
pub proof fn law_texts_keep_their_place(
    injections: Seq<InjectionView>,
    outcomes: Seq<Option<ContentsView>>,
)
    requires
        injections.len() == outcomes.len(),
    ensures
        all_recorded(injections, outcomes).items.len() == injections.len(),
        forall|i: int|
            0 <= i < injections.len() ==> {
                let item = #[trigger] all_recorded(injections, outcomes).items[i];
                &&& item == taken_in(injections[i], outcomes[i])
                &&& item.name == injections[i].name
                &&& item.path == injections[i].path
                &&& outcomes[i] is None ==> item == injections[i]
            },
    decreases injections.len(),
{
    if injections.len() > 0 {
        law_texts_keep_their_place(injections.drop_last(), outcomes.drop_last());
        let fewer = all_recorded(injections.drop_last(), outcomes.drop_last());
        let all = all_recorded(injections, outcomes);
        assert forall|i: int| 0 <= i < injections.len() implies {
            let item = #[trigger] all.items[i];
            &&& item == taken_in(injections[i], outcomes[i])
            &&& item.name == injections[i].name
            &&& item.path == injections[i].path
            &&& outcomes[i] is None ==> item == injections[i]
        } by {
            if i < injections.len() - 1 {
                assert(all.items[i] == fewer.items[i]);
            }
        }
    }
}

/// Where no text is expanded, there is nothing to warn of and every text is what
/// it was.
pub proof fn law_without_expansion_nothing_changes(
    injections: Seq<InjectionView>,
    outcomes: Seq<Option<ContentsView>>,
)
    requires
        injections.len() == outcomes.len(),
        forall|i: int| 0 <= i < outcomes.len() ==> (#[trigger] outcomes[i]) is None,
    ensures
        all_recorded(injections, outcomes) == (ItemsView {
            items: injections,
            warnings: Seq::empty(),
        }),
    decreases injections.len(),
{
    if injections.len() > 0 {
        law_without_expansion_nothing_changes(injections.drop_last(), outcomes.drop_last());
        assert(injections.drop_last().push(injections.last()) =~= injections);
        assert(Seq::<Seq<char>>::empty() + Seq::<Seq<char>>::empty() =~= Seq::<Seq<char>>::empty());
    } else {
        assert(injections =~= Seq::<InjectionView>::empty());
    }
}

/// Of the skills that are mentioned with a path, the last one has its say: its
/// placeholders are expanded where it says so, and else none are.
pub proof fn law_last_mention_has_its_say(mentioned: Seq<MentionedSkill>, path: Seq<char>, k: int)
    requires
        0 <= k < mentioned.len(),
        mentioned[k].skill.path@ == path,
        forall|j: int| k < j < mentioned.len() ==> (#[trigger] mentioned[j]).skill.path@ != path,
    ensures
        match mentioned[k].dynamic_context {
            Some(context) => if context.inline_command_placeholders {
                target_of(mentioned, path) == Some(k)
            } else {
                target_of(mentioned, path) is None
            },
            None => target_of(mentioned, path) is None,
        },
{
    assert(stands_for(mentioned, path, k));
    if exists|j: int| stands_for(mentioned, path, j) && mentioned[j].expands() {
        let j = choose|j: int| stands_for(mentioned, path, j) && mentioned[j].expands();
        law_path_stands_for_one(mentioned, path, j, k);
    }
}

/// No skill has a say in a text with whose path none is mentioned.
pub proof fn law_unmentioned_path_stands_for_none(mentioned: Seq<MentionedSkill>, path: Seq<char>)
    requires
        forall|j: int| 0 <= j < mentioned.len() ==> (#[trigger] mentioned[j]).skill.path@ != path,
    ensures
        target_of(mentioned, path) is None,
{
}

/// A text goes to the end of those that are taken in, under its name and path, and
/// its warnings go behind the warnings so far. One that is not expanded is taken in
/// as it was and warned of with nothing.
pub proof fn law_text_goes_to_the_end(
    so_far: ItemsView,
    injection: InjectionView,
    expansion: ContentsView,
)
    ensures
        recorded(so_far, injection, None) == (ItemsView {
            items: so_far.items.push(injection),
            warnings: so_far.warnings,
        }),
        recorded(so_far, injection, Some(expansion)) == (ItemsView {
            items: so_far.items.push(
                InjectionView {
                    name: injection.name,
                    path: injection.path,
                    contents: expansion.contents,
                },
            ),
            warnings: so_far.warnings + expansion.warnings,
        }),
{
    assert(so_far.warnings + Seq::empty() =~= so_far.warnings);
}

/// What texts and their expansions stand for is what stands in them.
pub proof fn law_injection_views_are_the_texts(
    list: Seq<SkillInjection>,
    i: int,
    whole: SkillDynamicContextExpansion,
    expansion: SkillContentsExpansion,
)
    requires
        0 <= i < list.len(),
    ensures
        injection_views(list).len() == list.len(),
        injection_views(list)[i].name == list[i].name@,
        injection_views(list)[i].path == list[i].path@,
        injection_views(list)[i].contents == list[i].contents@,
        whole@.items.len() == whole.items@.len(),
        forall|k: int|
            0 <= k < whole.items@.len() ==> {
                &&& (#[trigger] whole@.items[k]).name == whole.items@[k].name@
                &&& whole@.items[k].path == whole.items@[k].path@
                &&& whole@.items[k].contents == whole.items@[k].contents@
            },
        whole@.warnings.len() == whole.warnings@.len(),
        forall|k: int|
            0 <= k < whole.warnings@.len() ==> #[trigger] whole@.warnings[k]
                == whole.warnings@[k]@,
        outcome_view(None) is None,
        outcome_view(Some(expansion)) is Some,
        outcome_view(Some(expansion))->0.contents == expansion.contents@,
        outcome_view(Some(expansion))->0.warnings.len() == expansion.warnings@.len(),
        forall|k: int|
            0 <= k < expansion.warnings@.len() ==> #[trigger] outcome_view(
                Some(expansion),
            )->0.warnings[k] == expansion.warnings@[k]@,
{
}

} // verus!
