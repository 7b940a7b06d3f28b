use vstd::prelude::*;
use vstd::seq_lib::group_seq_properties;

verus! {

/// Views of labelled outcomes: each feed's label with its busy answer, or
/// nothing where that feed's evaluation failed.
pub open spec fn outcome_views(outcomes: Seq<(String, Option<bool>)>) -> Seq<
    (Seq<char>, Option<bool>),
> {
    outcomes.map_values(|o: (String, Option<bool>)| (o.0@, o.1))
}

/// Views of labelled answers.
pub open spec fn pair_views(pairs: Seq<(String, bool)>) -> Seq<(Seq<char>, bool)> {
    pairs.map_values(|o: (String, bool)| (o.0@, o.1))
}

/// The labelled answers of the feeds that evaluated successfully, in input
/// order; failed feeds are omitted.
pub open spec fn successes(outcomes: Seq<(Seq<char>, Option<bool>)>) -> Seq<(Seq<char>, bool)>
    decreases outcomes.len(),
{
    if outcomes.len() == 0 {
        Seq::empty()
    } else {
        let rest = successes(outcomes.drop_last());
        match outcomes.last().1 {
            Some(b) => rest + seq![(outcomes.last().0, b)],
            None => rest,
        }
    }
}

/// The label-to-answer mapping a batch of outcomes denotes: failed feeds are
/// omitted, and among entries sharing a label the later one wins.
pub open spec fn result_map(outcomes: Seq<(Seq<char>, Option<bool>)>) -> Map<Seq<char>, bool>
    decreases outcomes.len(),
{
    if outcomes.len() == 0 {
        Map::empty()
    } else {
        let rest = result_map(outcomes.drop_last());
        match outcomes.last().1 {
            Some(b) => rest.insert(outcomes.last().0, b),
            None => rest,
        }
    }
}

/// Whether no two outcomes carry the same label.
pub open spec fn unique_labels(outcomes: Seq<(Seq<char>, Option<bool>)>) -> bool {
    forall|i: int, j: int| 0 <= i < j < outcomes.len() ==> outcomes[i].0 != outcomes[j].0
}

/// Keeps the labelled answers of the feeds that evaluated successfully, in
/// input order; a failed feed's label is omitted from the result, never
/// defaulted.
pub fn collect_results(outcomes: &Vec<(String, Option<bool>)>) -> (r: Vec<(String, bool)>)
    ensures
        pair_views(r@) == successes(outcome_views(outcomes@)),
{
    let ghost ovs = outcome_views(outcomes@);
    let mut out: Vec<(String, bool)> = Vec::new();
    let mut i: usize = 0;
    proof {
        assert(ovs.take(0) =~= Seq::<(Seq<char>, Option<bool>)>::empty());
        assert(pair_views(out@) =~= successes(ovs.take(0)));
    }
    while i < outcomes.len()
        invariant
            i <= outcomes@.len(),
            ovs == outcome_views(outcomes@),
            ovs.len() == outcomes@.len(),
            pair_views(out@) == successes(ovs.take(i as int)),
        decreases outcomes@.len() - i,
    {
        proof {
            assert(ovs[i as int] == (outcomes@[i as int].0@, outcomes@[i as int].1));
            assert(ovs.take(i as int + 1).drop_last() =~= ovs.take(i as int));
            assert(ovs.take(i as int + 1).last() == ovs[i as int]);
        }
        match &outcomes[i].1 {
            Some(b) => {
                let label = outcomes[i].0.clone();
                let answer = *b;
                out.push((label, answer));
                proof {
                    assert(pair_views(out@) =~= successes(ovs.take(i as int + 1)));
                }
            },
            None => {},
        }
        i += 1;
    }
    proof {
        assert(ovs.take(outcomes@.len() as int) =~= ovs);
    }
    out
}

/// In a batch with unique labels, the mapping holds a label with an answer
/// exactly when that feed completed successfully with that answer.
pub proof fn lemma_result_map_characterization(outcomes: Seq<(Seq<char>, Option<bool>)>)
    requires
        unique_labels(outcomes),
    ensures
        forall|l: Seq<char>, b: bool|
            #[trigger] result_map(outcomes).contains_pair(l, b) <==> outcomes.contains(
                (l, Some(b)),
            ),
    decreases outcomes.len(),
{
    broadcast use group_seq_properties;

    if outcomes.len() > 0 {
        let rest = outcomes.drop_last();
        let last = outcomes.last();
        lemma_result_map_characterization(rest);
        assert forall|l: Seq<char>, b: bool| #[trigger]
            result_map(outcomes).contains_pair(l, b) implies outcomes.contains((l, Some(b))) by {
            match last.1 {
                Some(b0) => {
                    if l == last.0 {
                        assert(outcomes[outcomes.len() - 1] == (l, Some(b)));
                    } else {
                        assert(result_map(outcomes) == result_map(rest).insert(last.0, b0));
                        assert(result_map(rest).contains_pair(l, b));
                        assert(rest.contains((l, Some(b))));
                        let w = choose|w: int| 0 <= w < rest.len() && rest[w] == (l, Some(b));
                        assert(outcomes[w] == (l, Some(b)));
                    }
                },
                None => {
                    assert(result_map(outcomes) == result_map(rest));
                    assert(result_map(rest).contains_pair(l, b));
                    assert(rest.contains((l, Some(b))));
                    let w = choose|w: int| 0 <= w < rest.len() && rest[w] == (l, Some(b));
                    assert(outcomes[w] == (l, Some(b)));
                },
            }
        }
        assert forall|l: Seq<char>, b: bool| outcomes.contains(
            (l, Some(b)),
        ) implies #[trigger] result_map(outcomes).contains_pair(l, b) by {
            let w = choose|w: int| 0 <= w < outcomes.len() && outcomes[w] == (l, Some(b));
            if w == outcomes.len() - 1 {
                assert(last == (l, Some(b)));
                assert(result_map(outcomes).contains_pair(l, b));
            } else {
                assert(rest[w] == (l, Some(b)));
                assert(rest.contains((l, Some(b))));
                assert(result_map(rest).contains_pair(l, b));
                // the last outcome carries another label, so it cannot
                // shadow this pair
                assert(outcomes[w].0 != outcomes[outcomes.len() - 1].0);
            }
        }
    }
}

/// Which labelled outcomes arrived decides the batch's answer mapping; the
/// order they completed in, and so any concurrency bound on the scheduling,
/// never changes the result.
pub proof fn lemma_order_never_changes_results(
    a: Seq<(Seq<char>, Option<bool>)>,
    b: Seq<(Seq<char>, Option<bool>)>,
)
    requires
        a.to_multiset() == b.to_multiset(),
        unique_labels(a),
        unique_labels(b),
    ensures
        result_map(a) == result_map(b),
{
    broadcast use vstd::seq_lib::group_to_multiset_ensures;

    lemma_result_map_characterization(a);
    lemma_result_map_characterization(b);
    let ma = result_map(a);
    let mb = result_map(b);
    assert forall|l: Seq<char>| #[trigger] ma.dom().contains(l) implies mb.dom().contains(l)
        && mb[l] == ma[l] by {
        assert(ma.contains_pair(l, ma[l]));
        assert(a.contains((l, Some(ma[l]))));
        assert(a.to_multiset().count((l, Some(ma[l]))) > 0);
        assert(b.contains((l, Some(ma[l]))));
        assert(mb.contains_pair(l, ma[l]));
    }
    assert forall|l: Seq<char>| #[trigger] mb.dom().contains(l) implies ma.dom().contains(l) by {
        assert(mb.contains_pair(l, mb[l]));
        assert(b.contains((l, Some(mb[l]))));
        assert(b.to_multiset().count((l, Some(mb[l]))) > 0);
        assert(a.contains((l, Some(mb[l]))));
        assert(ma.contains_pair(l, mb[l]));
    }
    assert(ma =~= mb);
}

} // verus!
