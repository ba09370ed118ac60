//! The label applier: brings one label onto the forge by creating it and,
//! where the creation fails, updating the label of that name instead.
//!
//! The applier makes no call itself. It says which call is due; the driver
//! makes it and reports the reply. What follows a reply is decided by
//! [`Phase::after`], and what is due in a phase by [`Phase::action`]; a
//! [`LabelApplier`] carries one label through its phases, and the reconciler
//! does the same for each label of a sequence.

use crate::forge::{
    create_call, make_create_call, make_update_call, update_call, CallView, ClientError,
    RemoteCall, RemoteReply, ReplyView,
};
use crate::label::{LabelIdentity, LabelView};
use crate::repository::{RepositoryPath, RepositoryView};
use vstd::prelude::*;

verus! {

/// How far the work on one label has come.
#[derive(Debug, PartialEq, Eq)]
pub enum Phase {
    /// The creation is due or under way.
    Creating,
    /// The creation failed; the update is due or under way.
    Updating,
    /// The label is on the forge as declared.
    Succeeded,
    /// The update failed too.
    Failed(ClientError),
}

/// What a phase is.
pub enum PhaseView {
    Creating,
    Updating,
    Succeeded,
    Failed(Seq<char>),
}

impl View for Phase {
    type V = PhaseView;

    open spec fn view(&self) -> PhaseView {
        match self {
            Phase::Creating => PhaseView::Creating,
            Phase::Updating => PhaseView::Updating,
            Phase::Succeeded => PhaseView::Succeeded,
            Phase::Failed(error) => PhaseView::Failed(error@),
        }
    }
}

/// What the driver is to do next.
#[derive(Debug, PartialEq, Eq)]
pub enum Action {
    /// Make this call and report the forge's reply.
    Call(RemoteCall),
    /// Nothing more: the work has ended, well or with the error given.
    Finish(Result<(), ClientError>),
}

/// What an action is.
pub enum ActionView {
    Call(CallView),
    Finish(Result<(), Seq<char>>),
}

impl View for Action {
    type V = ActionView;

    open spec fn view(&self) -> ActionView {
        match self {
            Action::Call(call) => ActionView::Call(call@),
            Action::Finish(Ok(_)) => ActionView::Finish(Ok(())),
            Action::Finish(Err(error)) => ActionView::Finish(Err(error@)),
        }
    }
}

/// The phase that follows `phase` when the forge answers the call that was
/// due in it with `reply`.
///
/// A creation that succeeds ends the work. A creation that fails, for
/// whatever reason, leads to the update. An update that succeeds ends the
/// work; one that fails ends it with the forge's detail as the error. Once
/// the work has ended, replies change nothing.
pub open spec fn phase_after(phase: PhaseView, reply: ReplyView) -> PhaseView {
    match phase {
        PhaseView::Creating => match reply {
            ReplyView::Succeeded => PhaseView::Succeeded,
            ReplyView::Failed(_) => PhaseView::Updating,
        },
        PhaseView::Updating => match reply {
            ReplyView::Succeeded => PhaseView::Succeeded,
            ReplyView::Failed(detail) => PhaseView::Failed(detail),
        },
        PhaseView::Succeeded => PhaseView::Succeeded,
        PhaseView::Failed(detail) => PhaseView::Failed(detail),
    }
}

/// What is due when the work on `label` in `repository` stands in `phase`.
pub open spec fn due(repository: RepositoryView, label: LabelView, phase: PhaseView) -> ActionView {
    match phase {
        PhaseView::Creating => ActionView::Call(create_call(repository, label)),
        PhaseView::Updating => ActionView::Call(update_call(repository, label)),
        PhaseView::Succeeded => ActionView::Finish(Ok(())),
        PhaseView::Failed(detail) => ActionView::Finish(Err(detail)),
    }
}

impl Phase {
    /// The phase that follows when the forge answers with `reply`.
    pub fn after(self, reply: RemoteReply) -> (next: Phase)
        ensures
            next@ == phase_after(self@, reply@),
    {
        match self {
            Phase::Creating => match reply {
                RemoteReply::Succeeded => Phase::Succeeded,
                RemoteReply::Failed(_) => Phase::Updating,
            },
            Phase::Updating => match reply {
                RemoteReply::Succeeded => Phase::Succeeded,
                RemoteReply::Failed(detail) => Phase::Failed(ClientError::Other(detail)),
            },
            Phase::Succeeded => Phase::Succeeded,
            Phase::Failed(error) => Phase::Failed(error),
        }
    }

    /// What is due in this phase of the work on `label` in `repository`.
    pub fn action(&self, repository: &RepositoryPath, label: &LabelIdentity) -> (action: Action)
        ensures
            action@ == due(repository@, label@, self@),
    {
        match self {
            Phase::Creating => Action::Call(make_create_call(repository, label)),
            Phase::Updating => Action::Call(make_update_call(repository, label)),
            Phase::Succeeded => Action::Finish(Ok(())),
            Phase::Failed(error) => Action::Finish(Err(error.clone())),
        }
    }
}

/// What an applier is: the label, the repository it goes to, and the phase.
pub struct ApplierView {
    pub repository: RepositoryView,
    pub label: LabelView,
    pub phase: PhaseView,
}

impl ApplierView {
    /// The applier before any call.
    pub open spec fn start(repository: RepositoryView, label: LabelView) -> ApplierView {
        ApplierView { repository, label, phase: PhaseView::Creating }
    }

    /// What the driver is to do now.
    pub open spec fn pending(self) -> ActionView {
        due(self.repository, self.label, self.phase)
    }

    /// The applier after the forge has answered the pending call.
    pub open spec fn on_reply(self, reply: ReplyView) -> ApplierView {
        ApplierView { phase: phase_after(self.phase, reply), ..self }
    }
}

/// The work of bringing one label onto the forge.
#[derive(Debug)]
pub struct LabelApplier {
    repository: RepositoryPath,
    label: LabelIdentity,
    phase: Phase,
}

impl View for LabelApplier {
    type V = ApplierView;

    closed spec fn view(&self) -> ApplierView {
        ApplierView { repository: self.repository@, label: self.label@, phase: self.phase@ }
    }
}

impl LabelApplier {
    /// Begins the work on `label` in `repository`. The first thing due is
    /// the creation of the label.
    pub fn start(repository: &RepositoryPath, label: LabelIdentity) -> (begun: (Self, Action))
        ensures
            begun.0@ == ApplierView::start(repository@, label@),
            begun.1@ == ActionView::Call(create_call(repository@, label@)),
    {
        let applier = LabelApplier {
            repository: repository.clone(),
            label,
            phase: Phase::Creating,
        };
        let action = applier.pending();
        (applier, action)
    }

    /// What the driver is to do now.
    pub fn pending(&self) -> (action: Action)
        ensures
            action@ == self@.pending(),
    {
        self.phase.action(&self.repository, &self.label)
    }

    /// Takes the forge's reply to the pending call, and says what is due
    /// after it.
    pub fn on_reply(self, reply: RemoteReply) -> (next: (Self, Action))
        ensures
            next.0@ == self@.on_reply(reply@),
            next.1@ == next.0@.pending(),
    {
        let LabelApplier { repository, label, phase } = self;
        let applier = LabelApplier { repository, label, phase: phase.after(reply) };
        let action = applier.pending();
        (applier, action)
    }
}

/// When the creation fails, whatever the forge gave as the reason, the
/// update of the label of the same name is due, with the colour and the
/// description that the creation carried.
pub proof fn lemma_failed_create_falls_back(
    repository: RepositoryView,
    label: LabelView,
    detail: Seq<char>,
)
    ensures
        ApplierView::start(repository, label).pending() == ActionView::Call(
            create_call(repository, label),
        ),
        ApplierView::start(repository, label).on_reply(ReplyView::Failed(detail)).pending()
            == ActionView::Call(update_call(repository, label)),
        update_call(repository, label) matches CallView::Update {
            name,
            new_name,
            color,
            description,
            ..
        } && name == label.name && new_name == label.name && color == label.color && description
            == label.description,
{
}

/// An applier asks for at most two calls: after the replies to a creation
/// and to an update it has finished, and it finishes with an error only
/// when both failed, with the detail of the update's failure.
pub proof fn lemma_applier_ends_after_two_calls(
    repository: RepositoryView,
    label: LabelView,
    first: ReplyView,
    second: ReplyView,
)
    ensures
        first is Succeeded ==> ApplierView::start(repository, label).on_reply(first).pending()
            == ActionView::Finish(Ok(())),
        first is Failed && second is Succeeded ==> ApplierView::start(repository, label).on_reply(
            first,
        ).on_reply(second).pending() == ActionView::Finish(Ok(())),
        first is Failed && second is Failed ==> ApplierView::start(repository, label).on_reply(
            first,
        ).on_reply(second).pending() == ActionView::Finish(Err(second->0)),
{
}

/// Once an applier has finished, further replies change neither its state
/// nor what it reports.
pub proof fn lemma_finished_applier_stays(applier: ApplierView, reply: ReplyView)
    requires
        applier.pending() is Finish,
    ensures
        applier.on_reply(reply) == applier,
{
}

} // verus!
