//! The forge as the library sees it: the two remote calls it asks for, the
//! replies it takes back, and a model of the forge's label store.

use crate::label::{LabelIdentity, LabelView};
use crate::repository::{RepositoryPath, RepositoryView};
use vstd::prelude::*;
use vstd::string::*;

verus! {

/// The body of a call that creates a label.
#[derive(Debug, PartialEq, Eq)]
pub struct CreateLabelRequest {
    pub name: String,
    pub color: String,
    pub description: String,
}

/// The body of a call that updates a label.
#[derive(Debug, PartialEq, Eq)]
pub struct UpdateLabelRequest {
    pub new_name: String,
    pub color: String,
    pub description: String,
}

/// A call on the forge that the driver is to make.
#[derive(Debug, PartialEq, Eq)]
#[allow(inconsistent_fields)]
pub enum RemoteCall {
    /// Create a label in the repository `repo` of `owner`.
    CreateLabel { owner: String, repo: String, request: CreateLabelRequest },
    /// Update the label that is now called `name` in the repository `repo`
    /// of `owner`.
    UpdateLabel { owner: String, repo: String, name: String, request: UpdateLabelRequest },
}

/// What the forge answered to a call.
#[derive(Debug, PartialEq, Eq)]
pub enum RemoteReply {
    /// The call took effect.
    Succeeded,
    /// The call failed; the text is what the forge or the transport reported.
    Failed(String),
}

/// The failure of a run, with the detail that the forge reported.
#[derive(Debug, PartialEq, Eq)]
pub enum ClientError {
    Other(String),
}

/// What a remote call is.
pub enum CallView {
    Create {
        owner: Seq<char>,
        repo: Seq<char>,
        name: Seq<char>,
        color: Seq<char>,
        description: Seq<char>,
    },
    Update {
        owner: Seq<char>,
        repo: Seq<char>,
        name: Seq<char>,
        new_name: Seq<char>,
        color: Seq<char>,
        description: Seq<char>,
    },
}

/// What a reply is.
pub enum ReplyView {
    Succeeded,
    Failed(Seq<char>),
}

impl View for RemoteCall {
    type V = CallView;

    open spec fn view(&self) -> CallView {
        match self {
            RemoteCall::CreateLabel { owner, repo, request } => CallView::Create {
                owner: owner@,
                repo: repo@,
                name: request.name@,
                color: request.color@,
                description: request.description@,
            },
            RemoteCall::UpdateLabel { owner, repo, name, request } => CallView::Update {
                owner: owner@,
                repo: repo@,
                name: name@,
                new_name: request.new_name@,
                color: request.color@,
                description: request.description@,
            },
        }
    }
}

impl View for RemoteReply {
    type V = ReplyView;

    open spec fn view(&self) -> ReplyView {
        match self {
            RemoteReply::Succeeded => ReplyView::Succeeded,
            RemoteReply::Failed(detail) => ReplyView::Failed(detail@),
        }
    }
}

impl View for ClientError {
    type V = Seq<char>;

    /// The detail that the forge reported.
    open spec fn view(&self) -> Seq<char> {
        match self {
            ClientError::Other(detail) => detail@,
        }
    }
}

impl ClientError {
    /// The error in words: a fixed introduction, then the forge's detail.
    pub fn message(&self) -> (text: String)
        ensures
            text@ == "Encountered GitHub client error: "@ + self@,
    {
        let mut text = String::from_str("Encountered GitHub client error: ");
        match self {
            ClientError::Other(detail) => text.append(detail.as_str()),
        }
        text
    }
}

impl Clone for CreateLabelRequest {
    fn clone(&self) -> (copy: Self)
        ensures
            copy == *self,
    {
        CreateLabelRequest {
            name: self.name.clone(),
            color: self.color.clone(),
            description: self.description.clone(),
        }
    }
}

impl Clone for UpdateLabelRequest {
    fn clone(&self) -> (copy: Self)
        ensures
            copy == *self,
    {
        UpdateLabelRequest {
            new_name: self.new_name.clone(),
            color: self.color.clone(),
            description: self.description.clone(),
        }
    }
}

impl Clone for RemoteCall {
    fn clone(&self) -> (copy: Self)
        ensures
            copy == *self,
    {
        match self {
            RemoteCall::CreateLabel { owner, repo, request } => RemoteCall::CreateLabel {
                owner: owner.clone(),
                repo: repo.clone(),
                request: request.clone(),
            },
            RemoteCall::UpdateLabel { owner, repo, name, request } => RemoteCall::UpdateLabel {
                owner: owner.clone(),
                repo: repo.clone(),
                name: name.clone(),
                request: request.clone(),
            },
        }
    }
}

impl Clone for RemoteReply {
    fn clone(&self) -> (copy: Self)
        ensures
            copy == *self,
    {
        match self {
            RemoteReply::Succeeded => RemoteReply::Succeeded,
            RemoteReply::Failed(detail) => RemoteReply::Failed(detail.clone()),
        }
    }
}

impl Clone for ClientError {
    fn clone(&self) -> (copy: Self)
        ensures
            copy == *self,
    {
        match self {
            ClientError::Other(detail) => ClientError::Other(detail.clone()),
        }
    }
}

/// The call that creates `label` in `repository`.
pub open spec fn create_call(repository: RepositoryView, label: LabelView) -> CallView {
    CallView::Create {
        owner: repository.owner,
        repo: repository.name,
        name: label.name,
        color: label.color,
        description: label.description,
    }
}

/// The call that updates the label of `repository` that has the name of
/// `label`: it keeps that name and takes the colour and the description of
/// `label`.
pub open spec fn update_call(repository: RepositoryView, label: LabelView) -> CallView {
    CallView::Update {
        owner: repository.owner,
        repo: repository.name,
        name: label.name,
        new_name: label.name,
        color: label.color,
        description: label.description,
    }
}

/// Builds the call that creates `label` in `repository`.
pub fn make_create_call(repository: &RepositoryPath, label: &LabelIdentity) -> (call: RemoteCall)
    ensures
        call@ == create_call(repository@, label@),
{
    RemoteCall::CreateLabel {
        owner: String::from_str(repository.owner()),
        repo: String::from_str(repository.name()),
        request: CreateLabelRequest {
            name: String::from_str(label.name()),
            color: String::from_str(label.color()),
            description: String::from_str(label.description()),
        },
    }
}

/// Builds the call that brings the label of `repository` with the name of
/// `label` to the colour and description of `label`.
pub fn make_update_call(repository: &RepositoryPath, label: &LabelIdentity) -> (call: RemoteCall)
    ensures
        call@ == update_call(repository@, label@),
{
    RemoteCall::UpdateLabel {
        owner: String::from_str(repository.owner()),
        repo: String::from_str(repository.name()),
        name: String::from_str(label.name()),
        request: UpdateLabelRequest {
            new_name: String::from_str(label.name()),
            color: String::from_str(label.color()),
            description: String::from_str(label.description()),
        },
    }
}

} // verus!
