use vstd::prelude::*;
use crate::tasks::SprintState;
use crate::text::{all_whitespace, chars_of, is_blank, str_equal, string_from_chars, views};

verus! {

/// The `init` command: interactive setup wizard for first-time configuration.
pub struct InitCommand;

impl InitCommand {
    /// The name the command is invoked by.
    pub fn name(&self) -> (n: &'static str)
        ensures
            n@ == "init"@,
    {
        "init"
    }
}

/// The first position of `]` in `s`, or `s.len()` where there is none.
pub open spec fn close_bracket(s: Seq<char>, k: int) -> int
    decreases s.len() - k,
{
    if k >= s.len() {
        s.len() as int
    } else if s[k] == ']' {
        k
    } else {
        close_bracket(s, k + 1)
    }
}

/// The id in a picked suggestion `[id] name`: what stands between a leading
/// `[` and the first `]` (or the end); none without the leading `[`.
pub open spec fn spec_picked_id(selection: Seq<char>) -> Option<Seq<char>> {
    let head = selection.subrange(0, close_bracket(selection, 0));
    if head.len() > 0 && head[0] == '[' {
        Some(head.drop_first())
    } else {
        None
    }
}

/// What a selection typed in the setup wizard's board or sprint prompt does.
#[derive(Debug, Clone, Copy, PartialEq, Eq, Structural)]
pub enum PickStep {
    /// Nothing typed while a choice is still required: ask again.
    NeedOne,
    /// Choosing is over.
    Finish,
    /// The prompt was left while a choice is still required: setup stops.
    Abort,
    /// The text is not a picked suggestion: ask again.
    Invalid,
    /// The id was added (`added`) or was there already; `all_chosen` when
    /// every offered item is now chosen, which ends the choosing.
    Chosen { added: bool, all_chosen: bool },
}

/// The effect of `selection` on the ids `chosen` so far, out of `offered`
/// items; `required`: at least one item must be chosen.
pub open spec fn spec_pick(chosen: Seq<Seq<char>>, selection: Seq<char>, offered: nat, required: bool) -> (Seq<Seq<char>>, PickStep) {
    if all_whitespace(selection) {
        if required && chosen.len() == 0 {
            (chosen, PickStep::NeedOne)
        } else {
            (chosen, PickStep::Finish)
        }
    } else {
        match spec_picked_id(selection) {
            None => (chosen, PickStep::Invalid),
            Some(id) => {
                let added = !chosen.contains(id);
                let next = if added {
                    chosen.push(id)
                } else {
                    chosen
                };
                (next, PickStep::Chosen { added, all_chosen: next.len() >= offered })
            },
        }
    }
}

fn picked_id(selection: &str) -> (id: Option<String>)
    ensures
        match id {
            Some(t) => spec_picked_id(selection@) == Some(t@),
            None => spec_picked_id(selection@) is None,
        },
{
    let s = chars_of(selection);
    let mut k: usize = 0;
    while k < s.len() && s[k] != ']'
        invariant
            0 <= k <= s@.len(),
            s@ == selection@,
            close_bracket(s@, 0) == close_bracket(s@, k as int),
        decreases s@.len() - k,
    {
        k = k + 1;
    }
    assert(close_bracket(s@, k as int) == k);
    if k > 0 && s[0] == '[' {
        let id = string_from_chars(&s.as_slice()[1..k]);
        assert(s@.subrange(0, k as int).drop_first() =~= s@.subrange(1, k as int));
        Some(id)
    } else {
        None
    }
}

fn contains_id(chosen: &Vec<String>, id: &str) -> (b: bool)
    ensures
        b == views(chosen@).contains(id@),
{
    let mut i: usize = 0;
    while i < chosen.len()
        invariant
            0 <= i <= chosen@.len(),
            forall|j: int| 0 <= j < i ==> (#[trigger] chosen@[j])@ != id@,
        decreases chosen@.len() - i,
    {
        if str_equal(chosen[i].as_str(), id) {
            assert(views(chosen@)[i as int] == id@);
            return true;
        }
        i = i + 1;
    }
    proof {
        if views(chosen@).contains(id@) {
            let j = choose|j: int| 0 <= j < views(chosen@).len() && views(chosen@)[j] == id@;
            assert(chosen@[j]@ == id@);
        }
    }
    false
}

/// Takes a selection typed in the setup wizard's board or sprint prompt:
/// `chosen` holds the ids chosen so far, `offered` how many items the prompt
/// offers, `required` whether at least one must be chosen.
pub fn pick_step(chosen: &mut Vec<String>, selection: &str, offered: usize, required: bool) -> (step: PickStep)
    ensures
        views(final(chosen)@) == spec_pick(views(old(chosen)@), selection@, offered as nat, required).0,
        step == spec_pick(views(old(chosen)@), selection@, offered as nat, required).1,
{
    let s = chars_of(selection);
    if is_blank(s.as_slice()) {
        if required && chosen.len() == 0 {
            return PickStep::NeedOne;
        }
        return PickStep::Finish;
    }
    match picked_id(selection) {
        None => PickStep::Invalid,
        Some(id) => {
            let ghost before = views(chosen@);
            let added = !contains_id(chosen, id.as_str());
            if added {
                chosen.push(id);
                assert(views(chosen@) =~= before.push(id@));
            }
            PickStep::Chosen { added, all_chosen: chosen.len() >= offered }
        },
    }
}

/// What leaving the prompt (Escape) does: setup stops where a choice is
/// required and none was made; else choosing is over.
pub fn escape_step(chosen_count: usize, required: bool) -> (step: PickStep)
    ensures
        step == (if required && chosen_count == 0 {
            PickStep::Abort
        } else {
            PickStep::Finish
        }),
{
    if required && chosen_count == 0 {
        PickStep::Abort
    } else {
        PickStep::Finish
    }
}

/// Whether the setup wizard offers a sprint to follow: not followed yet, and active or future.
pub open spec fn offered_sprint(followed: bool, state: SprintState) -> bool {
    !followed && (state == SprintState::Active || state == SprintState::Future)
}

/// The sprints the setup wizard offers, by position: unfollowed active or future ones.
pub fn offered_sprints(sprints: &[(bool, SprintState)]) -> (found: Vec<usize>)
    ensures
        forall|k: int| 0 <= k < found@.len() ==> (#[trigger] found@[k]) < sprints@.len() && offered_sprint(
            sprints@[found@[k] as int].0,
            sprints@[found@[k] as int].1,
        ),
        forall|i: int| 0 <= i < sprints@.len() && offered_sprint(#[trigger] sprints@[i].0, sprints@[i].1) ==> found@.contains(i as usize),
        forall|a: int, b: int| 0 <= a < b < found@.len() ==> found@[a] < found@[b],
{
    let mut found: Vec<usize> = Vec::new();
    let mut i: usize = 0;
    while i < sprints.len()
        invariant
            0 <= i <= sprints@.len(),
            forall|k: int| 0 <= k < found@.len() ==> (#[trigger] found@[k]) < i && offered_sprint(
                sprints@[found@[k] as int].0,
                sprints@[found@[k] as int].1,
            ),
            forall|j: int| 0 <= j < i && offered_sprint(#[trigger] sprints@[j].0, sprints@[j].1) ==> found@.contains(j as usize),
            forall|a: int, b: int| 0 <= a < b < found@.len() ==> found@[a] < found@[b],
        decreases sprints@.len() - i,
    {
        let (followed, state) = sprints[i];
        let offered = !followed && (state == SprintState::Active || state == SprintState::Future);
        if offered {
            let ghost before = found@;
            found.push(i);
            proof {
                assert forall|j: int| 0 <= j < i + 1 && offered_sprint(#[trigger] sprints@[j].0, sprints@[j].1) implies found@.contains(j as usize) by {
                    if j < i {
                        let k = choose|k: int| 0 <= k < before.len() && before[k] == j as usize;
                        assert(found@[k] == j as usize);
                    } else {
                        assert(found@[before.len() as int] == i);
                    }
                }
            }
        }
        i = i + 1;
    }
    found
}

} // verus!
