//! The reconciler: applies a sequence of labels to one repository, one
//! after the other, and stops at the first label that cannot be applied.

use crate::applier::{due, phase_after, Action, ActionView, Phase, PhaseView};
use crate::category::Category;
use crate::config::{plan_of, Config};
use crate::forge::{RemoteReply, ReplyView};
use crate::label::{label_views, LabelIdentity, LabelView};
use crate::repository::{RepositoryPath, RepositoryView};
use vstd::prelude::*;

verus! {

/// What a reconciler is: the repository, the labels to apply in order, how
/// many of them have been applied, and the phase of the work on the next.
pub struct ReconcilerView {
    pub repository: RepositoryView,
    pub labels: Seq<LabelView>,
    pub position: nat,
    pub phase: PhaseView,
}

impl ReconcilerView {
    /// The states that a reconciler can be in.
    pub open spec fn wf(self) -> bool {
        self.position <= self.labels.len() && self.phase !is Succeeded
    }

    /// The reconciler before any call.
    pub open spec fn start(repository: RepositoryView, labels: Seq<LabelView>) -> ReconcilerView {
        ReconcilerView { repository, labels, position: 0, phase: PhaseView::Creating }
    }

    /// What the driver is to do now: the call that the work on the next
    /// label asks for; or to finish, well when every label has been applied,
    /// with the error when one could not be.
    pub open spec fn pending(self) -> ActionView {
        if self.position < self.labels.len() {
            due(self.repository, self.labels[self.position as int], self.phase)
        } else {
            ActionView::Finish(Ok(()))
        }
    }

    /// The reconciler after the forge has answered the pending call. When
    /// the answer completes a label, the work on the one after it begins;
    /// when it fails a label, the reconciler stays at that label for good.
    pub open spec fn on_reply(self, reply: ReplyView) -> ReconcilerView {
        if self.position < self.labels.len() {
            match phase_after(self.phase, reply) {
                PhaseView::Succeeded => ReconcilerView {
                    position: self.position + 1,
                    phase: PhaseView::Creating,
                    ..self
                },
                phase => ReconcilerView { phase, ..self },
            }
        } else {
            self
        }
    }
}

/// The work of applying a sequence of labels to one repository.
#[derive(Debug)]
pub struct Reconciler {
    repository: RepositoryPath,
    labels: Vec<LabelIdentity>,
    position: usize,
    phase: Phase,
}

impl View for Reconciler {
    type V = ReconcilerView;

    closed spec fn view(&self) -> ReconcilerView {
        ReconcilerView {
            repository: self.repository@,
            labels: label_views(self.labels@),
            position: self.position as nat,
            phase: self.phase@,
        }
    }
}

impl Reconciler {
    #[verifier::type_invariant]
    spec fn in_range(&self) -> bool {
        self@.wf()
    }

    /// Begins to apply `labels` to `repository`, in their order.
    pub fn start(repository: &RepositoryPath, labels: Vec<LabelIdentity>) -> (begun: (Self, Action))
        ensures
            begun.0@ == ReconcilerView::start(repository@, label_views(labels@)),
            begun.1@ == begun.0@.pending(),
            begun.0@.wf(),
    {
        let reconciler = Reconciler {
            repository: repository.clone(),
            labels,
            position: 0,
            phase: Phase::Creating,
        };
        let action = reconciler.pending();
        (reconciler, action)
    }

    /// Begins to reconcile one category: its entries are applied in their
    /// order.
    pub fn for_category(repository: &RepositoryPath, category: &Category) -> (begun: (
        Self,
        Action,
    ))
        ensures
            begun.0@ == ReconcilerView::start(repository@, category@.expansion()),
            begun.1@ == begun.0@.pending(),
            begun.0@.wf(),
    {
        Reconciler::start(repository, category.labels())
    }

    /// Begins a whole run: the categories are reconciled in their order,
    /// each one's entries in theirs.
    pub fn for_config(repository: &RepositoryPath, config: &Config) -> (begun: (Self, Action))
        ensures
            begun.0@ == ReconcilerView::start(repository@, plan_of(config@)),
            begun.1@ == begun.0@.pending(),
            begun.0@.wf(),
    {
        Reconciler::start(repository, config.plan())
    }

    /// What the driver is to do now.
    pub fn pending(&self) -> (action: Action)
        ensures
            action@ == self@.pending(),
            self@.wf(),
    {
        proof {
            use_type_invariant(self);
        }
        if self.position < self.labels.len() {
            self.phase.action(&self.repository, &self.labels[self.position])
        } else {
            Action::Finish(Ok(()))
        }
    }

    /// Takes the forge's reply to the pending call, and says what is due
    /// after it.
    pub fn on_reply(self, reply: RemoteReply) -> (next: (Self, Action))
        ensures
            next.0@ == self@.on_reply(reply@),
            next.1@ == next.0@.pending(),
            next.0@.wf(),
    {
        proof {
            use_type_invariant(&self);
        }
        let Reconciler { repository, labels, position, phase } = self;
        let reconciler = if position < labels.len() {
            match phase.after(reply) {
                Phase::Succeeded => Reconciler {
                    repository,
                    labels,
                    position: position + 1,
                    phase: Phase::Creating,
                },
                phase => Reconciler { repository, labels, position, phase },
            }
        } else {
            Reconciler { repository, labels, position, phase }
        };
        let action = reconciler.pending();
        (reconciler, action)
    }

    /// How many labels have been applied so far.
    pub fn applied(&self) -> (n: usize)
        ensures
            n == self@.position,
            n <= self@.labels.len(),
    {
        proof {
            use_type_invariant(self);
        }
        self.position
    }

    /// The label that the work stands at: the one whose call is pending, or
    /// the one that could not be applied. `None` once every label has been
    /// applied.
    pub fn current(&self) -> (label: Option<&LabelIdentity>)
        ensures
            match label {
                Some(label) => self@.position < self@.labels.len() && label@
                    == self@.labels[self@.position as int],
                None => self@.position == self@.labels.len(),
            },
    {
        proof {
            use_type_invariant(self);
        }
        if self.position < self.labels.len() {
            Some(&self.labels[self.position])
        } else {
            None
        }
    }
}

} // verus!
