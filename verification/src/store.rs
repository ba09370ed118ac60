//! A model of the forge's label store, and what a reconciliation leaves in
//! it.
//!
//! The model forge refuses a creation only when a label of that name is
//! there already, and an update only when none of that name is there or the
//! new name belongs to another label. Real forges fail for more reasons; for
//! those see [`crate::course`], which holds for any replies.

use crate::applier::{ActionView, PhaseView};
use crate::category::CategoryView;
use crate::forge::{create_call, update_call, CallView, ReplyView};
use crate::label::{lemma_derived_name_injective, LabelView};
use crate::reconciler::ReconcilerView;
use crate::repository::RepositoryView;
use vstd::prelude::*;

verus! {

/// Where a label lives on the forge: its repository and its name.
pub struct Slot {
    pub owner: Seq<char>,
    pub repo: Seq<char>,
    pub name: Seq<char>,
}

/// What the forge keeps of a label besides its name.
pub struct Stored {
    pub color: Seq<char>,
    pub description: Seq<char>,
}

/// The labels that the forge holds.
pub type Store = Map<Slot, Stored>;

/// The slot of `label` in `repository`.
pub open spec fn slot_of(repository: RepositoryView, label: LabelView) -> Slot {
    Slot { owner: repository.owner, repo: repository.name, name: label.name }
}

/// What the forge keeps of `label`.
pub open spec fn stored_of(label: LabelView) -> Stored {
    Stored { color: label.color, description: label.description }
}

/// The detail with which the model forge refuses to create a label.
pub open spec fn already_exists() -> Seq<char> {
    "already exists"@
}

/// The detail with which the model forge refuses to update a label.
pub open spec fn not_found() -> Seq<char> {
    "not found"@
}

/// What the model forge holds after `call`, and what it replies.
pub open spec fn answer(store: Store, call: CallView) -> (Store, ReplyView) {
    match call {
        CallView::Create { owner, repo, name, color, description } => {
            let slot = Slot { owner, repo, name };
            if store.dom().contains(slot) {
                (store, ReplyView::Failed(already_exists()))
            } else {
                (store.insert(slot, Stored { color, description }), ReplyView::Succeeded)
            }
        },
        CallView::Update { owner, repo, name, new_name, color, description } => {
            let slot = Slot { owner, repo, name };
            let new_slot = Slot { owner, repo, name: new_name };
            if store.dom().contains(slot) && (new_slot == slot || !store.dom().contains(new_slot)) {
                (
                    store.remove(slot).insert(new_slot, Stored { color, description }),
                    ReplyView::Succeeded,
                )
            } else {
                (store, ReplyView::Failed(not_found()))
            }
        },
    }
}

/// An upper bound on the calls that a reconciler in `state` may still make.
pub open spec fn calls_left(state: ReconcilerView) -> nat {
    if state.position >= state.labels.len() {
        0
    } else {
        match state.phase {
            PhaseView::Creating => 2 * (state.labels.len() - state.position) as nat,
            PhaseView::Updating => (2 * (state.labels.len() - state.position) - 1) as nat,
            _ => 0,
        }
    }
}

/// How a reconciliation against the model forge ended.
pub struct Outcome {
    /// The reconciler at the end.
    pub state: ReconcilerView,
    /// What the forge holds at the end.
    pub store: Store,
    /// The calls that were made, in order.
    pub calls: Seq<CallView>,
}

/// Runs a reconciler in `state` against the model forge that holds `store`,
/// until the reconciler has nothing more to ask.
pub open spec fn run(state: ReconcilerView, store: Store) -> Outcome
    decreases calls_left(state),
{
    match state.pending() {
        ActionView::Finish(_) => Outcome { state, store, calls: Seq::empty() },
        ActionView::Call(call) => {
            let (held, reply) = answer(store, call);
            let rest = run(state.on_reply(reply), held);
            Outcome { calls: seq![call] + rest.calls, ..rest }
        },
    }
}

/// The store after each of `labels` has been written to its slot in
/// `repository`, in order: a later label of the same name overwrites an
/// earlier one.
pub open spec fn settled(store: Store, repository: RepositoryView, labels: Seq<LabelView>) -> Store
    decreases labels.len(),
{
    if labels.len() == 0 {
        store
    } else {
        settled(
            store.insert(slot_of(repository, labels[0]), stored_of(labels[0])),
            repository,
            labels.drop_first(),
        )
    }
}

/// Some label of `labels` lives in `slot`.
pub open spec fn touches(repository: RepositoryView, labels: Seq<LabelView>, slot: Slot) -> bool {
    exists|i: int| 0 <= i < labels.len() && slot_of(repository, #[trigger] labels[i]) == slot
}

/// Two stores hold the same in `slot`: both nothing, or both the same.
pub open spec fn same_at(one: Store, other: Store, slot: Slot) -> bool {
    &&& one.dom().contains(slot) <==> other.dom().contains(slot)
    &&& one.dom().contains(slot) ==> one[slot] == other[slot]
}

/// Two stores hold the same in every slot that `labels` do not touch.
pub open spec fn agree_elsewhere(
    one: Store,
    other: Store,
    repository: RepositoryView,
    labels: Seq<LabelView>,
) -> bool {
    forall|slot: Slot|
        !touches(repository, labels, slot) ==> #[trigger] same_at(one, other, slot)
}

/// The creation of each label, in the order of the labels.
pub open spec fn creations(repository: RepositoryView, labels: Seq<LabelView>) -> Seq<CallView> {
    Seq::new(labels.len(), |i: int| create_call(repository, labels[i]))
}

/// For each label in order, its creation and then its update.
pub open spec fn creations_with_updates(
    repository: RepositoryView,
    labels: Seq<LabelView>,
) -> Seq<CallView> {
    Seq::new(
        2 * labels.len(),
        |k: int|
            if k % 2 == 0 {
                create_call(repository, labels[k / 2])
            } else {
                update_call(repository, labels[k / 2])
            },
    )
}

/// No two of `labels` have the same name.
pub open spec fn names_distinct(labels: Seq<LabelView>) -> bool {
    forall|i: int, j: int|
        0 <= i < j < labels.len() ==> (#[trigger] labels[i]).name != (#[trigger] labels[j]).name
}

proof fn lemma_run_from(state: ReconcilerView, store: Store)
    requires
        state.wf(),
        state.phase is Creating,
    ensures
        run(state, store).store == settled(
            store,
            state.repository,
            state.labels.skip(state.position as int),
        ),
        run(state, store).state.pending() == ActionView::Finish(Ok::<(), Seq<char>>(())),
    decreases state.labels.len() - state.position,
{
    let rest = state.labels.skip(state.position as int);
    if state.position < state.labels.len() {
        let label = rest[0];
        let slot = slot_of(state.repository, label);
        let written = store.insert(slot, stored_of(label));
        assert(rest.drop_first() =~= state.labels.skip((state.position + 1) as int));
        assert(state.pending() == ActionView::Call(create_call(state.repository, label)));
        if store.dom().contains(slot) {
            let second = state.on_reply(ReplyView::Failed(already_exists()));
            assert(second.pending() == ActionView::Call(update_call(state.repository, label)));
            assert(store.remove(slot).insert(slot, stored_of(label)) =~= written);
            let third = second.on_reply(ReplyView::Succeeded);
            lemma_run_from(third, written);
            assert(run(second, store).store == run(third, written).store);
        } else {
            let second = state.on_reply(ReplyView::Succeeded);
            lemma_run_from(second, written);
        }
    } else {
        assert(rest =~= Seq::<LabelView>::empty());
    }
}

/// Against the model forge a reconciliation always ends well, and it leaves
/// every label written to its slot: the forge then holds what it held
/// before, except that each label applied is there with its colour and its
/// description.
pub proof fn lemma_run_settles(repository: RepositoryView, labels: Seq<LabelView>, store: Store)
    ensures
        run(ReconcilerView::start(repository, labels), store).store == settled(
            store,
            repository,
            labels,
        ),
        run(ReconcilerView::start(repository, labels), store).state.pending()
            == ActionView::Finish(Ok::<(), Seq<char>>(())),
{
    assert(labels.skip(0) =~= labels);
    lemma_run_from(ReconcilerView::start(repository, labels), store);
}

/// Writing labels leaves every slot alone that none of them lives in.
pub proof fn lemma_settled_elsewhere(
    store: Store,
    repository: RepositoryView,
    labels: Seq<LabelView>,
)
    ensures
        agree_elsewhere(settled(store, repository, labels), store, repository, labels),
    decreases labels.len(),
{
    if labels.len() > 0 {
        let written = store.insert(slot_of(repository, labels[0]), stored_of(labels[0]));
        let rest = labels.drop_first();
        lemma_settled_elsewhere(written, repository, rest);
        assert forall|slot: Slot| !touches(repository, labels, slot) implies #[trigger] same_at(
            settled(store, repository, labels),
            store,
            slot,
        ) by {
            assert(slot_of(repository, labels[0]) != slot);
            if touches(repository, rest, slot) {
                let i = choose|i: int|
                    0 <= i < rest.len() && slot_of(repository, #[trigger] rest[i]) == slot;
                assert(slot_of(repository, labels[i + 1]) == slot);
            }
            assert(same_at(settled(written, repository, rest), written, slot));
        }
    } else {
        assert forall|slot: Slot| #[trigger] same_at(store, store, slot) by {}
    }
}

/// What the store holds in the slots of the labels before they are written
/// makes no difference to what it holds afterwards.
pub proof fn lemma_settled_same(
    one: Store,
    other: Store,
    repository: RepositoryView,
    labels: Seq<LabelView>,
)
    requires
        agree_elsewhere(one, other, repository, labels),
    ensures
        settled(one, repository, labels) == settled(other, repository, labels),
    decreases labels.len(),
{
    if labels.len() == 0 {
        assert forall|slot: Slot| one.dom().contains(slot) <==> other.dom().contains(slot) by {
            assert(same_at(one, other, slot));
        }
        assert forall|slot: Slot| one.dom().contains(slot) implies one[slot] == other[slot] by {
            assert(same_at(one, other, slot));
        }
        assert(one =~= other);
    } else {
        let slot = slot_of(repository, labels[0]);
        let rest = labels.drop_first();
        let one_written = one.insert(slot, stored_of(labels[0]));
        let other_written = other.insert(slot, stored_of(labels[0]));
        assert forall|at: Slot| !touches(repository, rest, at) implies #[trigger] same_at(
            one_written,
            other_written,
            at,
        ) by {
            if at != slot {
                if touches(repository, labels, at) {
                    let i = choose|i: int|
                        0 <= i < labels.len() && slot_of(repository, #[trigger] labels[i]) == at;
                    assert(slot_of(repository, rest[i - 1]) == at);
                }
                assert(same_at(one, other, at));
            }
        }
        lemma_settled_same(one_written, other_written, repository, rest);
    }
}

/// Writing the same labels a second time changes nothing.
pub proof fn lemma_settled_twice(store: Store, repository: RepositoryView, labels: Seq<LabelView>)
    ensures
        settled(settled(store, repository, labels), repository, labels) == settled(
            store,
            repository,
            labels,
        ),
{
    lemma_settled_elsewhere(store, repository, labels);
    lemma_settled_same(settled(store, repository, labels), store, repository, labels);
}

/// Reconciling is idempotent: applying the same labels to the same
/// repository a second time leaves the forge holding exactly what it held
/// after the first time.
pub proof fn lemma_reconcile_idempotent(
    repository: RepositoryView,
    labels: Seq<LabelView>,
    store: Store,
)
    ensures
        run(
            ReconcilerView::start(repository, labels),
            run(ReconcilerView::start(repository, labels), store).store,
        ).store == run(ReconcilerView::start(repository, labels), store).store,
{
    let once = run(ReconcilerView::start(repository, labels), store).store;
    lemma_run_settles(repository, labels, store);
    lemma_run_settles(repository, labels, once);
    lemma_settled_twice(store, repository, labels);
}

/// Every label that was written is in the store afterwards.
pub proof fn lemma_settled_contains(
    store: Store,
    repository: RepositoryView,
    labels: Seq<LabelView>,
    i: int,
)
    requires
        0 <= i < labels.len(),
    ensures
        settled(store, repository, labels).dom().contains(slot_of(repository, labels[i])),
    decreases labels.len(),
{
    let slot = slot_of(repository, labels[i]);
    let written = store.insert(slot_of(repository, labels[0]), stored_of(labels[0]));
    let rest = labels.drop_first();
    if i > 0 {
        lemma_settled_contains(written, repository, rest, i - 1);
    } else if touches(repository, rest, slot) {
        let j = choose|j: int|
            0 <= j < rest.len() && slot_of(repository, #[trigger] rest[j]) == slot;
        lemma_settled_contains(written, repository, rest, j);
    } else {
        lemma_settled_elsewhere(written, repository, rest);
        assert(same_at(settled(written, repository, rest), written, slot));
    }
}

/// Where no two labels have the same name, each label that was written is
/// in the store afterwards with its own colour and description.
pub proof fn lemma_settled_holds(
    store: Store,
    repository: RepositoryView,
    labels: Seq<LabelView>,
    i: int,
)
    requires
        names_distinct(labels),
        0 <= i < labels.len(),
    ensures
        settled(store, repository, labels).dom().contains(slot_of(repository, labels[i])),
        settled(store, repository, labels)[slot_of(repository, labels[i])] == stored_of(labels[i]),
    decreases labels.len(),
{
    let slot = slot_of(repository, labels[i]);
    let written = store.insert(slot_of(repository, labels[0]), stored_of(labels[0]));
    let rest = labels.drop_first();
    if i > 0 {
        assert forall|a: int, b: int| 0 <= a < b < rest.len() implies (#[trigger] rest[a]).name != (
        #[trigger] rest[b]).name by {
            assert(labels[a + 1].name != labels[b + 1].name);
        }
        lemma_settled_holds(written, repository, rest, i - 1);
    } else {
        if touches(repository, rest, slot) {
            let j = choose|j: int|
                0 <= j < rest.len() && slot_of(repository, #[trigger] rest[j]) == slot;
            assert(labels[0].name != labels[j + 1].name);
        }
        lemma_settled_elsewhere(written, repository, rest);
        assert(same_at(settled(written, repository, rest), written, slot));
    }
}

/// The labels of a category have names of their own: no two entries resolve
/// to the same name.
pub proof fn lemma_category_names_distinct(category: CategoryView)
    requires
        category.distinct(),
    ensures
        names_distinct(category.expansion()),
{
    let labels = category.expansion();
    assert forall|i: int, j: int| 0 <= i < j < labels.len() implies (#[trigger] labels[i]).name != (
    #[trigger] labels[j]).name by {
        if labels[i].name == labels[j].name {
            lemma_derived_name_injective(
                category.prefix,
                category.entries[i].0,
                category.entries[j].0,
            );
        }
    }
}

/// After a category has been reconciled against the model forge, each of
/// its labels is on the forge under its resolved name, with the category's
/// colour and the entry's description.
pub proof fn lemma_category_reconciled(
    repository: RepositoryView,
    category: CategoryView,
    store: Store,
    i: int,
)
    requires
        category.distinct(),
        0 <= i < category.entries.len(),
    ensures
        run(ReconcilerView::start(repository, category.expansion()), store).store.dom().contains(
            slot_of(repository, category.label(i)),
        ),
        run(ReconcilerView::start(repository, category.expansion()), store).store[slot_of(
            repository,
            category.label(i),
        )] == stored_of(category.label(i)),
{
    lemma_category_names_distinct(category);
    lemma_run_settles(repository, category.expansion(), store);
    lemma_settled_holds(store, repository, category.expansion(), i);
}

proof fn lemma_fresh_from(state: ReconcilerView, store: Store)
    requires
        state.wf(),
        state.phase is Creating,
        names_distinct(state.labels),
        forall|i: int|
            state.position <= i < state.labels.len() ==> !store.dom().contains(
                slot_of(state.repository, #[trigger] state.labels[i]),
            ),
    ensures
        run(state, store).calls == creations(
            state.repository,
            state.labels.skip(state.position as int),
        ),
    decreases state.labels.len() - state.position,
{
    let rest = state.labels.skip(state.position as int);
    if state.position < state.labels.len() {
        let label = state.labels[state.position as int];
        let written = store.insert(slot_of(state.repository, label), stored_of(label));
        let second = state.on_reply(ReplyView::Succeeded);
        assert(state.pending() == ActionView::Call(create_call(state.repository, label)));
        assert forall|i: int|
            second.position <= i < second.labels.len() implies !written.dom().contains(
            slot_of(second.repository, #[trigger] second.labels[i]),
        ) by {
            assert(state.labels[state.position as int].name != state.labels[i].name);
        }
        lemma_fresh_from(second, written);
        assert(seq![create_call(state.repository, label)] + creations(
            state.repository,
            state.labels.skip((state.position + 1) as int),
        ) =~= creations(state.repository, rest));
    } else {
        assert(creations(state.repository, rest) =~= Seq::<CallView>::empty());
    }
}

/// Where the forge holds none of the labels yet and no two of them have the
/// same name, every label takes the creation: the calls are the creations,
/// in order, and nothing else.
pub proof fn lemma_first_run_creates(
    repository: RepositoryView,
    labels: Seq<LabelView>,
    store: Store,
)
    requires
        names_distinct(labels),
        forall|i: int|
            0 <= i < labels.len() ==> !store.dom().contains(
                slot_of(repository, #[trigger] labels[i]),
            ),
    ensures
        run(ReconcilerView::start(repository, labels), store).calls == creations(
            repository,
            labels,
        ),
{
    assert(labels.skip(0) =~= labels);
    lemma_fresh_from(ReconcilerView::start(repository, labels), store);
}

proof fn lemma_repeat_from(state: ReconcilerView, store: Store)
    requires
        state.wf(),
        state.phase is Creating,
        forall|i: int|
            state.position <= i < state.labels.len() ==> store.dom().contains(
                slot_of(state.repository, #[trigger] state.labels[i]),
            ),
    ensures
        run(state, store).calls == creations_with_updates(
            state.repository,
            state.labels.skip(state.position as int),
        ),
    decreases state.labels.len() - state.position,
{
    let rest = state.labels.skip(state.position as int);
    if state.position < state.labels.len() {
        let label = state.labels[state.position as int];
        let slot = slot_of(state.repository, label);
        let written = store.insert(slot, stored_of(label));
        let create = create_call(state.repository, label);
        let update = update_call(state.repository, label);
        let second = state.on_reply(ReplyView::Failed(already_exists()));
        let third = second.on_reply(ReplyView::Succeeded);
        assert(state.pending() == ActionView::Call(create));
        assert(second.pending() == ActionView::Call(update));
        assert(store.remove(slot).insert(slot, stored_of(label)) =~= written);
        lemma_repeat_from(third, written);
        let later = creations_with_updates(
            state.repository,
            state.labels.skip((state.position + 1) as int),
        );
        assert(run(second, store).calls == seq![update] + later);
        assert(seq![create] + (seq![update] + later) =~= creations_with_updates(
            state.repository,
            rest,
        ));
    } else {
        assert(creations_with_updates(state.repository, rest) =~= Seq::<CallView>::empty());
    }
}

/// Where the forge holds every one of the labels already, every label takes
/// the update: each creation is refused and the update of the same label
/// follows it.
pub proof fn lemma_repeat_run_updates(
    repository: RepositoryView,
    labels: Seq<LabelView>,
    store: Store,
)
    requires
        forall|i: int|
            0 <= i < labels.len() ==> store.dom().contains(
                slot_of(repository, #[trigger] labels[i]),
            ),
    ensures
        run(ReconcilerView::start(repository, labels), store).calls == creations_with_updates(
            repository,
            labels,
        ),
{
    assert(labels.skip(0) =~= labels);
    lemma_repeat_from(ReconcilerView::start(repository, labels), store);
}

/// A second reconciliation of the same labels takes the update for every
/// label, since the first has left them all on the forge.
pub proof fn lemma_second_run_updates(
    repository: RepositoryView,
    labels: Seq<LabelView>,
    store: Store,
)
    ensures
        run(
            ReconcilerView::start(repository, labels),
            run(ReconcilerView::start(repository, labels), store).store,
        ).calls == creations_with_updates(repository, labels),
{
    let once = run(ReconcilerView::start(repository, labels), store).store;
    lemma_run_settles(repository, labels, store);
    assert forall|i: int| 0 <= i < labels.len() implies once.dom().contains(
        slot_of(repository, #[trigger] labels[i]),
    ) by {
        lemma_settled_contains(store, repository, labels, i);
    }
    lemma_repeat_run_updates(repository, labels, once);
}

} // verus!
