//! Reporting agents that have gone wrong.

use vstd::prelude::*;

verus! {

/// Complaints that are reported before the rest is cut off.
pub const MAX_ISSUES: usize = 9;

/// The complaints among the first `n` agents, in order.
pub open spec fn complaints(checked: Seq<Option<String>>, n: int) -> Seq<Seq<char>>
    decreases n,
{
    if n <= 0 {
        Seq::empty()
    } else {
        match checked[n - 1] {
            None => complaints(checked, n - 1),
            Some(text) => complaints(checked, n - 1).push(text@),
        }
    }
}

proof fn lemma_complaints_grow(checked: Seq<Option<String>>, n: int, m: int)
    requires
        0 <= n <= m,
    ensures
        complaints(checked, n).is_prefix_of(complaints(checked, m)),
    decreases m,
{
    if n < m {
        lemma_complaints_grow(checked, n, m - 1);
    }
}

/// What is wrong with a swarm, given for each agent the complaint about it, if there is one: all
/// complaints where there are few, else the first nine and an ellipsis.
pub fn validation_issues(checked: &[Option<String>]) -> (issues: Vec<String>)
    ensures
        ({
            let all = complaints(checked@, checked@.len() as int);
            crate::text::texts(issues@) == (if all.len() < MAX_ISSUES {
                all
            } else {
                all.take(MAX_ISSUES as int).push("..."@)
            })
        }),
{
    let mut issues: Vec<String> = Vec::new();
    let mut i: usize = 0;
    assert(crate::text::texts(issues@) =~= complaints(checked@, 0));
    while i < checked.len()
        invariant
            i <= checked@.len(),
            issues@.len() < MAX_ISSUES,
            crate::text::texts(issues@) == complaints(checked@, i as int),
        decreases checked@.len() - i,
    {
        let ghost before = crate::text::texts(issues@);
        if let Some(text) = &checked[i] {
            issues.push(text.clone());
            assert(crate::text::texts(issues@) =~= before.push(text@));
        }
        assert(crate::text::texts(issues@) == complaints(checked@, i as int + 1));
        if issues.len() >= MAX_ISSUES {
            let ghost nine = crate::text::texts(issues@);
            issues.push("...".to_owned());
            proof {
                let all = complaints(checked@, checked@.len() as int);
                lemma_complaints_grow(checked@, i as int + 1, checked@.len() as int);
                assert(crate::text::texts(issues@) =~= nine.push("..."@));
                assert(all.take(MAX_ISSUES as int) =~= nine);
            }
            return issues;
        }
        i += 1;
    }
    issues
}

/// The complaints are those of the agents that have one, all of them, in the order of the agents.
pub proof fn law_complaints_are_those_of_the_agents(checked: Seq<Option<String>>)
    ensures
        complaints(checked, checked.len() as int) == checked.filter(
            |c: Option<String>| c is Some,
        ).map_values(|c: Option<String>| c->Some_0@),
    decreases checked.len(),
{
    let has = |c: Option<String>| c is Some;
    let text = |c: Option<String>| c->Some_0@;
    reveal(Seq::filter);
    if checked.len() > 0 {
        let before = checked.drop_last();
        law_complaints_are_those_of_the_agents(before);
        lemma_complaints_of_prefix(checked, before.len() as int);
        let kept = before.filter(has);
        if checked.last() is Some {
            assert(checked.filter(has) == kept.push(checked.last()));
            assert(kept.push(checked.last()).map_values(text) =~= kept.map_values(text).push(
                checked.last()->Some_0@,
            ));
        }
    } else {
        assert(checked.filter(has).map_values(text) =~= Seq::<Seq<char>>::empty());
    }
}

proof fn lemma_complaints_of_prefix(checked: Seq<Option<String>>, n: int)
    requires
        0 <= n < checked.len(),
    ensures
        complaints(checked.drop_last(), n) == complaints(checked, n),
    decreases n,
{
    if n > 0 {
        lemma_complaints_of_prefix(checked, n - 1);
    }
}

/// Nine complaints are reported before the rest is cut off.
pub proof fn law_nine_complaints_are_reported()
    ensures
        MAX_ISSUES == 9,
{
}

} // verus!
