//! Categories: groups of labels that share a prefix and a colour.

use crate::label::{derived_label, label_views, LabelIdentity, LabelView};
use vstd::prelude::*;
use vstd::string::*;

verus! {

/// What a category is: its prefix, its colour, and its entries in the order
/// in which they are resolved. An entry is a suffix with its description.
pub struct CategoryView {
    pub prefix: Seq<char>,
    pub color: Seq<char>,
    pub entries: Seq<(Seq<char>, Seq<char>)>,
}

impl CategoryView {
    /// Some entry has this suffix.
    pub open spec fn declares(self, suffix: Seq<char>) -> bool {
        exists|i: int| 0 <= i < self.entries.len() && (#[trigger] self.entries[i]).0 == suffix
    }

    /// The place of an entry with this suffix, where there is one.
    pub open spec fn place_of(self, suffix: Seq<char>) -> int {
        choose|i: int| 0 <= i < self.entries.len() && (#[trigger] self.entries[i]).0 == suffix
    }

    /// No suffix occurs twice.
    pub open spec fn distinct(self) -> bool {
        forall|i: int, j: int|
            0 <= i < j < self.entries.len() ==> (#[trigger] self.entries[i]).0 != (
            #[trigger] self.entries[j]).0
    }

    /// The category after `suffix` has been given `description`: an entry
    /// with that suffix keeps its place and takes the new description; a new
    /// suffix goes to the end.
    pub open spec fn with_entry(self, suffix: Seq<char>, description: Seq<char>) -> CategoryView {
        if self.declares(suffix) {
            CategoryView {
                entries: self.entries.update(self.place_of(suffix), (suffix, description)),
                ..self
            }
        } else {
            CategoryView { entries: self.entries.push((suffix, description)), ..self }
        }
    }

    /// The description that the category gives to each suffix.
    pub open spec fn mapping(self) -> Map<Seq<char>, Seq<char>> {
        Map::new(
            |suffix: Seq<char>| self.declares(suffix),
            |suffix: Seq<char>| self.entries[self.place_of(suffix)].1,
        )
    }

    /// The label that the entry at place `i` resolves to.
    pub open spec fn label(self, i: int) -> LabelView {
        derived_label(self.prefix, self.color, self.entries[i].0, self.entries[i].1)
    }

    /// The labels that the category declares, one for each entry, in the
    /// order of the entries.
    pub open spec fn expansion(self) -> Seq<LabelView> {
        Seq::new(self.entries.len(), |i: int| self.label(i))
    }
}

/// Giving a suffix a description changes the mapping at that suffix only.
pub proof fn lemma_with_entry_mapping(
    category: CategoryView,
    suffix: Seq<char>,
    description: Seq<char>,
)
    requires
        category.distinct(),
    ensures
        category.with_entry(suffix, description).distinct(),
        category.with_entry(suffix, description).mapping() == category.mapping().insert(
            suffix,
            description,
        ),
{
    let after = category.with_entry(suffix, description);
    let place = if category.declares(suffix) {
        category.place_of(suffix)
    } else {
        category.entries.len() as int
    };
    assert(after.entries[place] == (suffix, description));
    assert(after.distinct());
    assert forall|other: Seq<char>| after.declares(other) <==> (other == suffix
        || category.declares(other)) by {
        if after.declares(other) {
            let i = after.place_of(other);
            if i != place {
                assert(category.entries[i].0 == other);
            }
        }
        if category.declares(other) {
            let i = category.place_of(other);
            assert(after.entries[i].0 == other || other == suffix);
        }
    }
    assert forall|other: Seq<char>| after.declares(other) implies #[trigger] after.mapping()[other]
        == category.mapping().insert(suffix, description)[other] by {
        let i = after.place_of(other);
        if other != suffix {
            let j = category.place_of(other);
            assert(category.entries[j].0 == other);
            assert(after.entries[j] == category.entries[j]);
        }
    }
    assert(after.mapping() =~= category.mapping().insert(suffix, description));
}

/// A group of labels that share a prefix and a colour. Each entry gives one
/// suffix its description; no suffix occurs twice.
#[derive(Debug, PartialEq, Eq)]
pub struct Category {
    prefix: String,
    color: String,
    labels: Vec<(String, String)>,
}

impl View for Category {
    type V = CategoryView;

    closed spec fn view(&self) -> CategoryView {
        CategoryView {
            prefix: self.prefix@,
            color: self.color@,
            entries: self.labels@.map_values(|entry: (String, String)| (entry.0@, entry.1@)),
        }
    }
}

impl Category {
    #[verifier::type_invariant]
    spec fn suffixes_distinct(&self) -> bool {
        self@.distinct()
    }

    /// A category with no entries yet.
    pub fn new(prefix: &str, color: &str) -> (category: Self)
        ensures
            category@.prefix == prefix@,
            category@.color == color@,
            category@.entries == Seq::<(Seq<char>, Seq<char>)>::empty(),
    {
        let category = Category {
            prefix: String::from_str(prefix),
            color: String::from_str(color),
            labels: Vec::new(),
        };
        assert(category@.entries =~= Seq::<(Seq<char>, Seq<char>)>::empty());
        category
    }

    /// Gives `suffix` the description `description`, as a map would: a
    /// suffix that is already there keeps its place and takes the new
    /// description, a new one goes to the end.
    pub fn with_label(self, suffix: &str, description: &str) -> (category: Self)
        ensures
            category@ == self@.with_entry(suffix@, description@),
            category@.distinct(),
    {
        proof {
            use_type_invariant(&self);
        }
        let ghost before = self@;
        let Category { prefix, color, mut labels } = self;
        let key = String::from_str(suffix);
        let value = String::from_str(description);
        let ghost entries = labels@.map_values(|entry: (String, String)| (entry.0@, entry.1@));
        assert(entries == before.entries);
        let mut i: usize = 0;
        while i < labels.len()
            invariant
                i <= labels.len(),
                key@ == suffix@,
                value@ == description@,
                entries == labels@.map_values(|entry: (String, String)| (entry.0@, entry.1@)),
                entries == before.entries,
                before == self@,
                before.distinct(),
                before.prefix == prefix@,
                before.color == color@,
                forall|k: int| 0 <= k < i ==> (#[trigger] entries[k]).0 != suffix@,
            decreases labels.len() - i,
        {
            assert(entries[i as int].0 == labels@[i as int].0@);
            if labels[i].0 == key {
                labels.set(i, (key, value));
                proof {
                    assert(before.entries[i as int].0 == suffix@);
                    assert(before.place_of(suffix@) == i);
                    let after = before.with_entry(suffix@, description@);
                    assert(labels@.map_values(|entry: (String, String)| (entry.0@, entry.1@))
                        =~= after.entries);
                    lemma_with_entry_mapping(before, suffix@, description@);
                }
                return Category { prefix, color, labels };
            }
            i = i + 1;
        }
        labels.push((key, value));
        proof {
            assert(!before.declares(suffix@));
            let after = before.with_entry(suffix@, description@);
            assert(labels@.map_values(|entry: (String, String)| (entry.0@, entry.1@))
                =~= after.entries);
            lemma_with_entry_mapping(before, suffix@, description@);
        }
        Category { prefix, color, labels }
    }

    /// The prefix that every label of the category has in its name.
    pub fn prefix(&self) -> (prefix: &str)
        ensures
            prefix@ == self@.prefix,
    {
        self.prefix.as_str()
    }

    /// The colour that every label of the category has.
    pub fn color(&self) -> (color: &str)
        ensures
            color@ == self@.color,
    {
        self.color.as_str()
    }

    /// How many entries the category has.
    pub fn len(&self) -> (n: usize)
        ensures
            n == self@.entries.len(),
    {
        self.labels.len()
    }

    /// The suffix and the description of the entry at place `i`, where
    /// there is one.
    pub fn entry(&self, i: usize) -> (entry: Option<(&str, &str)>)
        ensures
            match entry {
                Some((suffix, description)) => i < self@.entries.len() && (suffix@, description@)
                    == self@.entries[i as int],
                None => i >= self@.entries.len(),
            },
    {
        if i < self.labels.len() {
            Some((self.labels[i].0.as_str(), self.labels[i].1.as_str()))
        } else {
            None
        }
    }

    /// Resolves every entry, in the order of the entries.
    pub fn labels(&self) -> (labels: Vec<LabelIdentity>)
        ensures
            label_views(labels@) == self@.expansion(),
            self@.distinct(),
    {
        proof {
            use_type_invariant(self);
        }
        let mut labels: Vec<LabelIdentity> = Vec::new();
        let mut i: usize = 0;
        while i < self.labels.len()
            invariant
                i <= self.labels.len(),
                label_views(labels@) == self@.expansion().take(i as int),
            decreases self.labels.len() - i,
        {
            let label = LabelIdentity::derive(
                self.prefix.as_str(),
                self.color.as_str(),
                self.labels[i].0.as_str(),
                self.labels[i].1.as_str(),
            );
            let ghost resolved = labels@;
            labels.push(label);
            proof {
                assert(label@ == self@.label(i as int));
                assert(label_views(labels@) =~= label_views(resolved).push(label@));
                assert(label_views(labels@) =~= self@.expansion().take(i + 1));
            }
            i = i + 1;
        }
        proof {
            assert(self@.expansion().take(i as int) =~= self@.expansion());
        }
        labels
    }
}

} // verus!
