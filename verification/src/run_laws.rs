//! What admitting, freeing and running rules promise over several calls.

use vstd::prelude::*;

#[allow(unused_imports)]
use crate::egraph::{
    after_run, all_rules_live, dead_rule, first_dead, first_repeat, live_rule, repeated,
    repeated_rule, schedule_fault, scheduled, watermarks, without_rule, RegisteredRule,
};
#[allow(unused_imports)]
use crate::ir::RuleId;

verus! {

/// A freed rule is dead, and stays dead whatever happens next: another rule is
/// freed or admitted, or a run of live rules completes.
pub proof fn law_freed_rules_stay_dead(
    rules: Seq<Option<RegisteredRule>>,
    id: RuleId,
    other: RuleId,
    admitted: RegisteredRule,
    requested: Seq<RuleId>,
    generation: u64,
)
    requires
        id.rep < rules.len(),
    ensures
        !live_rule(without_rule(rules, id), id),
        !live_rule(rules, id) ==> {
            &&& !live_rule(without_rule(rules, other), id)
            &&& !live_rule(rules.push(Some(admitted)), id)
            &&& all_rules_live(rules, requested) ==> !live_rule(
                after_run(rules, requested, generation),
                id,
            )
        },
{
    if all_rules_live(rules, requested) && scheduled(requested, id.rep as int) {
        let i = choose|i: int|
            0 <= i < requested.len() && (#[trigger] requested[i]).rep == id.rep as int;
        assert(live_rule(rules, requested[i]));
    }
}

/// Freeing, admitting and running leave every other rule as live as it was.
pub proof fn law_other_rules_stay_live(
    rules: Seq<Option<RegisteredRule>>,
    id: RuleId,
    other: RuleId,
    admitted: RegisteredRule,
    requested: Seq<RuleId>,
    generation: u64,
)
    requires
        live_rule(rules, id),
    ensures
        other != id ==> live_rule(without_rule(rules, other), id),
        live_rule(rules.push(Some(admitted)), id),
        live_rule(after_run(rules, requested, generation), id),
{
}

/// After a run, the next run of the same rules starts at the generation that
/// was reached, and a rule that did not run keeps its own watermark.
pub proof fn law_runs_resume_where_they_ended(
    rules: Seq<Option<RegisteredRule>>,
    requested: Seq<RuleId>,
    generation: u64,
    idle: RuleId,
)
    requires
        all_rules_live(rules, requested),
    ensures
        all_rules_live(after_run(rules, requested, generation), requested),
        watermarks(after_run(rules, requested, generation), requested) == Seq::new(
            requested.len(),
            |i: int| generation,
        ),
        live_rule(rules, idle) && !scheduled(requested, idle.rep as int) ==> after_run(
            rules,
            requested,
            generation,
        )[idle.rep as int] == rules[idle.rep as int],
{
    let after = after_run(rules, requested, generation);
    assert forall|i: int| 0 <= i < requested.len() implies live_rule(
        after,
        #[trigger] requested[i],
    ) && after[requested[i].rep as int]->0.watermark == generation by {
        assert(live_rule(rules, requested[i]));
        assert(scheduled(requested, requested[i].rep as int));
    }
    assert(watermarks(after, requested) =~= Seq::new(requested.len(), |i: int| generation));
}

/// A schedule is refused exactly when one of its rules is not live or is named
/// twice. The refusal names the first rule that is not live; only when all are,
/// it names the first rule that the schedule named before.
pub proof fn law_schedules_run_when_live_and_distinct(
    rules: Seq<Option<RegisteredRule>>,
    requested: Seq<RuleId>,
)
    ensures
        schedule_fault(rules, requested) is None <==> all_rules_live(rules, requested)
            && !repeated(requested),
        !all_rules_live(rules, requested) ==> exists|i: int|
            0 <= i < requested.len() && schedule_fault(rules, requested) == Some(
                dead_rule(requested[i]),
            ) && !live_rule(rules, #[trigger] requested[i]) && all_rules_live(
                rules,
                requested.take(i),
            ),
        all_rules_live(rules, requested) && repeated(requested) ==> exists|i: int|
            0 <= i < requested.len() && schedule_fault(rules, requested) == Some(
                repeated_rule(#[trigger] requested[i]),
            ) && requested.take(i).contains(requested[i]) && !repeated(requested.take(i)),
{
    lemma_first_dead(rules, requested, 0);
    lemma_first_repeat(requested, 0);
    match first_dead(rules, requested, 0) {
        Some(id) => {
            let i = choose|i: int|
                0 <= i < requested.len() && requested[i] == id && !live_rule(
                    rules,
                    #[trigger] requested[i],
                ) && forall|j: int| 0 <= j < i ==> live_rule(rules, #[trigger] requested[j]);
            assert forall|j: int| 0 <= j < requested.take(i).len() implies live_rule(
                rules,
                #[trigger] requested.take(i)[j],
            ) by {
                assert(live_rule(rules, requested[j]));
            }
        },
        None => {},
    }
}

proof fn lemma_first_repeat(requested: Seq<RuleId>, from: int)
    requires
        0 <= from <= requested.len(),
        !repeated(requested.take(from)),
    ensures
        first_repeat(requested, from) is None <==> !repeated(requested),
        first_repeat(requested, from) matches Some(id) ==> exists|i: int|
            0 <= i < requested.len() && #[trigger] requested[i] == id && requested.take(i).contains(
                requested[i],
            ) && !repeated(requested.take(i)),
    decreases requested.len() - from,
{
    if from < requested.len() {
        let before = requested.take(from);
        let after = requested.take(from + 1);
        if before.contains(requested[from]) {
            let j = choose|j: int| 0 <= j < before.len() && before[j] == requested[from];
            assert(requested[j] == requested[from]);
        } else {
            assert forall|i: int, j: int| 0 <= i < j < after.len() implies #[trigger] after[i]
                != #[trigger] after[j] by {
                if j < from {
                    assert(before[i] != before[j]);
                } else {
                    assert(before[i] == after[i]);
                }
            }
            lemma_first_repeat(requested, from + 1);
        }
    } else {
        assert(requested.take(from) =~= requested);
    }
}

proof fn lemma_first_dead(
    rules: Seq<Option<RegisteredRule>>,
    requested: Seq<RuleId>,
    from: int,
)
    requires
        0 <= from <= requested.len(),
    ensures
        first_dead(rules, requested, from) is None <==> (forall|i: int|
            from <= i < requested.len() ==> live_rule(rules, #[trigger] requested[i])),
        first_dead(rules, requested, from) matches Some(id) ==> exists|i: int|
            from <= i < requested.len() && requested[i] == id && !live_rule(
                rules,
                #[trigger] requested[i],
            ) && forall|j: int| from <= j < i ==> live_rule(rules, #[trigger] requested[j]),
    decreases requested.len() - from,
{
    if from < requested.len() {
        lemma_first_dead(rules, requested, from + 1);
        if live_rule(rules, requested[from]) {
            match first_dead(rules, requested, from + 1) {
                Some(id) => {
                    let i = choose|i: int|
                        from + 1 <= i < requested.len() && requested[i] == id && !live_rule(
                            rules,
                            #[trigger] requested[i],
                        ) && forall|j: int|
                            from + 1 <= j < i ==> live_rule(rules, #[trigger] requested[j]);
                    assert forall|j: int| from <= j < i implies live_rule(
                        rules,
                        #[trigger] requested[j],
                    ) by {}
                },
                None => {},
            }
        }
    }
}

} // verus!
