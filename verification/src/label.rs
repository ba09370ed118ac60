//! Resolved labels: the remote-facing form of one entry of a category.

use vstd::prelude::*;
use vstd::string::*;

verus! {

/// What a resolved label is: the three texts the forge stores for it.
pub struct LabelView {
    pub name: Seq<char>,
    pub color: Seq<char>,
    pub description: Seq<char>,
}

/// The name of the label that a category with `prefix` gives to the entry
/// `suffix`: the prefix, one hyphen, the suffix.
pub open spec fn derived_name(prefix: Seq<char>, suffix: Seq<char>) -> Seq<char> {
    prefix + seq!['-'] + suffix
}

/// The label that a category with `prefix` and `color` declares for the
/// entry `suffix` with `description`.
pub open spec fn derived_label(
    prefix: Seq<char>,
    color: Seq<char>,
    suffix: Seq<char>,
    description: Seq<char>,
) -> LabelView {
    LabelView { name: derived_name(prefix, suffix), color, description }
}

/// The labels of a sequence, each by its content.
pub open spec fn label_views(labels: Seq<LabelIdentity>) -> Seq<LabelView> {
    labels.map_values(|label: LabelIdentity| label@)
}

/// A derived name determines the suffix once the prefix is fixed: two
/// entries of one category never resolve to the same label name unless
/// their suffixes are the same.
pub proof fn lemma_derived_name_injective(prefix: Seq<char>, a: Seq<char>, b: Seq<char>)
    requires
        derived_name(prefix, a) == derived_name(prefix, b),
    ensures
        a == b,
{
    let with_a = derived_name(prefix, a);
    let with_b = derived_name(prefix, b);
    let head = (prefix.len() + 1) as int;
    assert(with_a.subrange(head, with_a.len() as int) =~= a);
    assert(with_b.subrange(head, with_b.len() as int) =~= b);
}

/// Computes the name of the label for `suffix` in a category with `prefix`.
pub fn derive_name(prefix: &str, suffix: &str) -> (name: String)
    ensures
        name@ == derived_name(prefix@, suffix@),
{
    let mut name = String::from_str(prefix);
    name.append("-");
    name.append(suffix);
    proof {
        reveal_strlit("-");
        assert(name@ =~= derived_name(prefix@, suffix@));
    }
    name
}

/// One label as the forge is to hold it. A value of this type is always the
/// result of resolving an entry of a category, so its name is never empty.
#[derive(Debug, PartialEq, Eq)]
pub struct LabelIdentity {
    name: String,
    color: String,
    description: String,
}

impl View for LabelIdentity {
    type V = LabelView;

    closed spec fn view(&self) -> LabelView {
        LabelView { name: self.name@, color: self.color@, description: self.description@ }
    }
}

impl LabelIdentity {
    #[verifier::type_invariant]
    spec fn named(&self) -> bool {
        self.name@.len() > 0
    }

    /// Resolves the entry `suffix` of a category with `prefix` and `color`.
    pub fn derive(prefix: &str, color: &str, suffix: &str, description: &str) -> (label: Self)
        ensures
            label@ == derived_label(prefix@, color@, suffix@, description@),
    {
        LabelIdentity {
            name: derive_name(prefix, suffix),
            color: String::from_str(color),
            description: String::from_str(description),
        }
    }

    /// The label's name; it is not empty.
    pub fn name(&self) -> (name: &str)
        ensures
            name@ == self@.name,
            name@.len() > 0,
    {
        proof {
            use_type_invariant(self);
        }
        self.name.as_str()
    }

    /// The label's colour, in the forge's encoding.
    pub fn color(&self) -> (color: &str)
        ensures
            color@ == self@.color,
    {
        self.color.as_str()
    }

    /// The label's description.
    pub fn description(&self) -> (description: &str)
        ensures
            description@ == self@.description,
    {
        self.description.as_str()
    }
}

impl Clone for LabelIdentity {
    fn clone(&self) -> (copy: Self)
        ensures
            copy@ == self@,
    {
        proof {
            use_type_invariant(self);
        }
        LabelIdentity {
            name: self.name.clone(),
            color: self.color.clone(),
            description: self.description.clone(),
        }
    }
}

} // verus!
