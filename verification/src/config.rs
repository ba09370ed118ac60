//! The configuration: the categories to reconcile, in order.

use crate::category::{Category, CategoryView};
use crate::label::{label_views, LabelIdentity, LabelView};
use vstd::prelude::*;

verus! {

/// The labels that the categories declare, all in one sequence: category
/// after category in the order given, and within a category entry after
/// entry.
pub open spec fn plan_of(categories: Seq<CategoryView>) -> Seq<LabelView>
    decreases categories.len(),
{
    if categories.len() == 0 {
        Seq::empty()
    } else {
        plan_of(categories.drop_last()) + categories.last().expansion()
    }
}

/// The plan of some categories followed by others is the plan of the first
/// followed by the plan of the others.
pub proof fn lemma_plan_of_concat(first: Seq<CategoryView>, others: Seq<CategoryView>)
    ensures
        plan_of(first + others) == plan_of(first) + plan_of(others),
    decreases others.len(),
{
    if others.len() == 0 {
        assert(first + others =~= first);
        assert(plan_of(first) + plan_of(others) =~= plan_of(first));
    } else {
        assert((first + others).drop_last() =~= first + others.drop_last());
        assert((first + others).last() == others.last());
        lemma_plan_of_concat(first, others.drop_last());
        assert(plan_of(first + others) =~= plan_of(first) + plan_of(others));
    }
}

/// The plan of a single category is its expansion.
pub proof fn lemma_plan_of_one(category: CategoryView)
    ensures
        plan_of(seq![category]) == category.expansion(),
{
    assert(seq![category].drop_last() =~= Seq::<CategoryView>::empty());
    assert(plan_of(seq![category]) =~= category.expansion()) by {
        reveal_with_fuel(plan_of, 2);
    }
}

/// The configuration of a run.
#[derive(Debug, PartialEq, Eq)]
pub struct Config {
    pub categories: Vec<Category>,
}

impl View for Config {
    type V = Seq<CategoryView>;

    open spec fn view(&self) -> Seq<CategoryView> {
        self.categories@.map_values(|category: Category| category@)
    }
}

impl Config {
    /// Resolves every entry of every category, in the order in which a run
    /// is to apply them.
    pub fn plan(&self) -> (labels: Vec<LabelIdentity>)
        ensures
            label_views(labels@) == plan_of(self@),
    {
        let mut labels: Vec<LabelIdentity> = Vec::new();
        let mut i: usize = 0;
        assert(self@.take(0) =~= Seq::<CategoryView>::empty());
        while i < self.categories.len()
            invariant
                i <= self.categories.len(),
                label_views(labels@) == plan_of(self@.take(i as int)),
            decreases self.categories.len() - i,
        {
            let mut more = self.categories[i].labels();
            let ghost planned = labels@;
            let ghost added = more@;
            labels.append(&mut more);
            proof {
                assert(self@.take(i + 1).drop_last() =~= self@.take(i as int));
                assert(self@.take(i + 1).last() == self.categories@[i as int]@);
                assert(label_views(labels@) =~= label_views(planned) + label_views(added));
            }
            i = i + 1;
        }
        proof {
            assert(self@.take(i as int) =~= self@);
        }
        labels
    }
}

} // verus!
