//! Onboarding steps and the checks an authored tutorial must pass.

use vstd::prelude::*;
use vstd::hash_set::StringHashSet;
use crate::text::{blank, is_blank};

verus! {

#[derive(Debug, Clone, Default)]
pub struct TutorialData {
    pub steps: Vec<TutorialStepData>,
}

#[derive(Debug, Clone)]
pub struct TutorialStepData {
    pub id: String,
    pub title: String,
    pub hint: String,
    pub completion: TutorialCompletion,
}

/// What the player has to do to finish a step.
#[derive(Debug, Clone)]
pub enum TutorialCompletion {
    Dig { target: usize },
    Claim { target: usize },
    Room { room: String },
    Recruit,
    Combat,
    Trap,
    Payday,
    Research,
    Wave,
    Spell,
    Conversion,
    Temple,
}

/// Whether an earlier step already uses the non-blank id `id`.
pub open spec fn id_taken(earlier: Seq<TutorialStepData>, id: Seq<char>) -> bool {
    exists|j: int| 0 <= j < earlier.len() && !is_blank(earlier[j].id@) && earlier[j].id@ == id
}

/// Whether a step's completion condition can ever be met as authored.
pub open spec fn completion_ok(c: TutorialCompletion) -> bool {
    match c {
        TutorialCompletion::Dig { target } => target != 0,
        TutorialCompletion::Claim { target } => target != 0,
        TutorialCompletion::Room { room } => !is_blank(room@),
        _ => true,
    }
}

/// The problems reported for one step, given the steps before it.
pub open spec fn step_problems(step: TutorialStepData, earlier: Seq<TutorialStepData>) -> Seq<
    Seq<char>,
> {
    let id = step.id@;
    let dup: Seq<Seq<char>> = if is_blank(id) || id_taken(earlier, id) {
        seq!["tutorial step id is empty or duplicated: `"@ + id + "`"@]
    } else {
        Seq::empty()
    };
    let title: Seq<Seq<char>> = if is_blank(step.title@) {
        seq!["tutorial step `"@ + id + "` has no title"@]
    } else {
        Seq::empty()
    };
    let hint: Seq<Seq<char>> = if is_blank(step.hint@) {
        seq!["tutorial step `"@ + id + "` has no hint"@]
    } else {
        Seq::empty()
    };
    let completion: Seq<Seq<char>> = match step.completion {
        TutorialCompletion::Dig { target } => if target == 0 {
            seq!["tutorial step `"@ + id + "` has a zero target"@]
        } else {
            Seq::empty()
        },
        TutorialCompletion::Claim { target } => if target == 0 {
            seq!["tutorial step `"@ + id + "` has a zero target"@]
        } else {
            Seq::empty()
        },
        TutorialCompletion::Room { room } => if is_blank(room@) {
            seq!["tutorial step `"@ + id + "` has no room id"@]
        } else {
            Seq::empty()
        },
        _ => Seq::empty(),
    };
    dup + title + hint + completion
}

/// Every problem of a tutorial, step by step in order.
pub open spec fn tutorial_problems(steps: Seq<TutorialStepData>) -> Seq<Seq<char>>
    decreases steps.len(),
{
    if steps.len() == 0 {
        Seq::empty()
    } else {
        tutorial_problems(steps.drop_last()) + step_problems(steps.last(), steps.drop_last())
    }
}

/// Whether a step passes every check.
pub open spec fn step_ok(step: TutorialStepData, earlier: Seq<TutorialStepData>) -> bool {
    &&& !is_blank(step.id@)
    &&& !id_taken(earlier, step.id@)
    &&& !is_blank(step.title@)
    &&& !is_blank(step.hint@)
    &&& completion_ok(step.completion)
}

/// Whatever one step's checks report is among the tutorial's problems.
proof fn lemma_step_problems_reported(steps: Seq<TutorialStepData>, i: int)
    requires
        0 <= i < steps.len(),
    ensures
        forall|x: Seq<char>|
            #[trigger] step_problems(steps[i], steps.take(i)).contains(x) ==> tutorial_problems(
                steps,
            ).contains(x),
    decreases steps.len(),
{
    let rest = steps.drop_last();
    let n = steps.len() - 1;
    if i < n {
        lemma_step_problems_reported(rest, i);
        assert(steps[i] == rest[i]);
        assert(steps.take(i) =~= rest.take(i));
    } else {
        assert(steps.take(n) =~= rest);
    }
    assert forall|x: Seq<char>| #[trigger]
        step_problems(steps[i], steps.take(i)).contains(x) implies tutorial_problems(steps).contains(
        x,
    ) by {
        let a = tutorial_problems(rest);
        let b = step_problems(steps[n], rest);
        if i < n {
            let k = choose|k: int| 0 <= k < a.len() && a[k] == x;
            assert((a + b)[k] == x);
        } else {
            let k = choose|k: int| 0 <= k < b.len() && b[k] == x;
            assert((a + b)[a.len() + k] == x);
        }
    }
}

/// Every check a step fails is reported on its own, whatever else the step
/// fails: a blank or reused id, a blank title, a blank hint, a zero dig or
/// claim target, and a blank room id each bring their own message.
pub proof fn every_failed_check_is_reported(steps: Seq<TutorialStepData>, i: int)
    requires
        0 <= i < steps.len(),
    ensures
        ({
            let step = steps[i];
            let id = step.id@;
            let problems = tutorial_problems(steps);
            &&& (is_blank(id) || exists|j: int|
                0 <= j < i && !is_blank(steps[j].id@) && #[trigger] steps[j].id@ == id)
                ==> problems.contains("tutorial step id is empty or duplicated: `"@ + id + "`"@)
            &&& is_blank(step.title@) ==> problems.contains(
                "tutorial step `"@ + id + "` has no title"@,
            )
            &&& is_blank(step.hint@) ==> problems.contains(
                "tutorial step `"@ + id + "` has no hint"@,
            )
            &&& (step.completion matches TutorialCompletion::Dig { target } && target == 0)
                ==> problems.contains("tutorial step `"@ + id + "` has a zero target"@)
            &&& (step.completion matches TutorialCompletion::Claim { target } && target == 0)
                ==> problems.contains("tutorial step `"@ + id + "` has a zero target"@)
            &&& (step.completion matches TutorialCompletion::Room { room } && is_blank(room@))
                ==> problems.contains("tutorial step `"@ + id + "` has no room id"@)
        }),
{
    lemma_step_problems_reported(steps, i);
    let step = steps[i];
    let id = step.id@;
    let earlier = steps.take(i);
    let sp = step_problems(step, earlier);
    if exists|j: int| 0 <= j < i && !is_blank(steps[j].id@) && #[trigger] steps[j].id@ == id {
        let j = choose|j: int| 0 <= j < i && !is_blank(steps[j].id@) && #[trigger] steps[j].id@ == id;
        assert(earlier[j] == steps[j]);
        assert(id_taken(earlier, id));
    }
    let dup: Seq<Seq<char>> = if is_blank(id) || id_taken(earlier, id) {
        seq!["tutorial step id is empty or duplicated: `"@ + id + "`"@]
    } else {
        Seq::empty()
    };
    let title: Seq<Seq<char>> = if is_blank(step.title@) {
        seq!["tutorial step `"@ + id + "` has no title"@]
    } else {
        Seq::empty()
    };
    let hint: Seq<Seq<char>> = if is_blank(step.hint@) {
        seq!["tutorial step `"@ + id + "` has no hint"@]
    } else {
        Seq::empty()
    };
    if dup.len() > 0 {
        assert(sp[0] == dup[0]);
        assert(sp.contains(dup[0]));
    }
    if title.len() > 0 {
        assert(sp[dup.len() as int] == title[0]);
        assert(sp.contains(title[0]));
    }
    if hint.len() > 0 {
        assert(sp[(dup.len() + title.len()) as int] == hint[0]);
        assert(sp.contains(hint[0]));
    }
    let k = dup.len() + title.len() + hint.len();
    if sp.len() > k {
        assert(sp.contains(sp[k as int]));
    }
}

/// `prefix` then `id` then `suffix`.
fn around(prefix: &str, id: &str, suffix: &str) -> (r: String)
    ensures
        r@ == prefix@ + id@ + suffix@,
{
    let mut s = String::from_str(prefix);
    s.append(id);
    s.append(suffix);
    s
}

impl TutorialData {
    /// Every problem with the authored steps, in step order: an id that is
    /// blank or already used by an earlier step, a blank title or hint, a
    /// dig or claim target of zero, and a blank room id.
    pub fn validate(&self) -> (problems: Vec<String>)
        ensures
            problems@.map_values(|s: String| s@) == tutorial_problems(self.steps@),
            forall|i: int|
                0 <= i < self.steps@.len() && is_blank((#[trigger] self.steps@[i]).title@)
                    ==> problems@.map_values(|s: String| s@).contains(
                    "tutorial step `"@ + self.steps@[i].id@ + "` has no title"@,
                ),
            forall|i: int|
                0 <= i < self.steps@.len() && is_blank((#[trigger] self.steps@[i]).hint@)
                    ==> problems@.map_values(|s: String| s@).contains(
                    "tutorial step `"@ + self.steps@[i].id@ + "` has no hint"@,
                ),
    {
        let steps = &self.steps;
        let mut problems: Vec<String> = Vec::new();
        let mut ids = StringHashSet::new();
        let mut i: usize = 0;
        assert(steps@.take(0) =~= Seq::<TutorialStepData>::empty());
        assert(ids@ =~= Set::new(|s: Seq<char>| id_taken(steps@.take(0), s)));
        while i < steps.len()
            invariant
                *steps == self.steps,
                i <= steps@.len(),
                problems@.map_values(|s: String| s@) == tutorial_problems(steps@.take(i as int)),
                ids@ == Set::new(|s: Seq<char>| id_taken(steps@.take(i as int), s)),
            decreases steps@.len() - i,
        {
            let step = &steps[i];
            let ghost earlier = steps@.take(i as int);
            assert(steps@.take(i + 1).drop_last() =~= earlier);
            assert(steps@.take(i + 1).last() == *step);
            let ghost before = problems@.map_values(|s: String| s@);
            let id_blank = blank(step.id.as_str());
            let fresh = if id_blank {
                false
            } else {
                ids.insert(step.id.clone())
            };
            if id_blank || !fresh {
                problems.push(around("tutorial step id is empty or duplicated: `", step.id.as_str(), "`"));
            }
            if blank(step.title.as_str()) {
                problems.push(around("tutorial step `", step.id.as_str(), "` has no title"));
            }
            if blank(step.hint.as_str()) {
                problems.push(around("tutorial step `", step.id.as_str(), "` has no hint"));
            }
            match &step.completion {
                TutorialCompletion::Dig { target } => {
                    if *target == 0 {
                        problems.push(around("tutorial step `", step.id.as_str(), "` has a zero target"));
                    }
                },
                TutorialCompletion::Claim { target } => {
                    if *target == 0 {
                        problems.push(around("tutorial step `", step.id.as_str(), "` has a zero target"));
                    }
                },
                TutorialCompletion::Room { room } => {
                    if blank(room.as_str()) {
                        problems.push(around("tutorial step `", step.id.as_str(), "` has no room id"));
                    }
                },
                _ => {},
            }
            assert(problems@.map_values(|s: String| s@) =~= before + step_problems(*step, earlier));
            i = i + 1;
            assert(ids@ =~= Set::new(|s: Seq<char>| id_taken(steps@.take(i as int), s))) by {
                assert forall|s: Seq<char>| ids@.contains(s) <==> id_taken(steps@.take(i as int), s) by {
                    if id_taken(steps@.take(i as int), s) {
                        let j = choose|j: int|
                            0 <= j < steps@.take(i as int).len() && !is_blank(steps@.take(i as int)[j].id@)
                                && steps@.take(i as int)[j].id@ == s;
                        if j < i - 1 {
                            assert(earlier[j] == steps@.take(i as int)[j]);
                        }
                    }
                    if id_taken(earlier, s) {
                        let j = choose|j: int|
                            0 <= j < earlier.len() && !is_blank(earlier[j].id@) && earlier[j].id@ == s;
                        assert(steps@.take(i as int)[j] == earlier[j]);
                    }
                    if !id_blank && s == step.id@ {
                        assert(steps@.take(i as int)[i - 1] == *step);
                    }
                }
            }
        }
        assert(steps@.take(steps@.len() as int) =~= steps@);
        proof {
            assert forall|i: int| 0 <= i < self.steps@.len() implies (is_blank(
                (#[trigger] self.steps@[i]).title@,
            ) ==> tutorial_problems(self.steps@).contains(
                "tutorial step `"@ + self.steps@[i].id@ + "` has no title"@,
            )) && (is_blank(self.steps@[i].hint@) ==> tutorial_problems(self.steps@).contains(
                "tutorial step `"@ + self.steps@[i].id@ + "` has no hint"@,
            )) by {
                every_failed_check_is_reported(self.steps@, i);
            }
        }
        problems
    }
}

/// A tutorial validates without problems exactly when every step has a
/// non-blank id that no earlier step uses, a non-blank title and hint, a
/// non-zero dig or claim target, and a non-blank room id.
pub proof fn clean_tutorials_are_well_formed(steps: Seq<TutorialStepData>)
    ensures
        (tutorial_problems(steps).len() == 0) == (forall|i: int|
            0 <= i < steps.len() ==> step_ok(#[trigger] steps[i], steps.take(i))),
    decreases steps.len(),
{
    if steps.len() > 0 {
        let rest = steps.drop_last();
        clean_tutorials_are_well_formed(rest);
        let n = steps.len() - 1;
        assert(steps.take(n) =~= rest);
        assert(step_problems(steps[n], rest).len() == 0 <==> step_ok(steps[n], rest));
        if forall|i: int| 0 <= i < steps.len() ==> step_ok(#[trigger] steps[i], steps.take(i)) {
            assert forall|i: int| 0 <= i < rest.len() implies step_ok(#[trigger] rest[i], rest.take(i)) by {
                assert(steps[i] == rest[i]);
                assert(steps.take(i) =~= rest.take(i));
                assert(step_ok(steps[i], steps.take(i)));
            }
        }
        if tutorial_problems(steps).len() == 0 {
            assert forall|i: int| 0 <= i < steps.len() implies step_ok(#[trigger] steps[i], steps.take(i)) by {
                if i < n {
                    assert(steps[i] == rest[i]);
                    assert(steps.take(i) =~= rest.take(i));
                    assert(step_ok(rest[i], rest.take(i)));
                }
            }
        }
    }
}

} // verus!
