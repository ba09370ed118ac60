use label_conductor::applier::{Action, LabelApplier, Phase};
use label_conductor::forge::{
    make_create_call, make_update_call, ClientError, CreateLabelRequest, RemoteCall, RemoteReply,
    UpdateLabelRequest,
};
use label_conductor::label::LabelIdentity;
use label_conductor::repository::RepositoryPath;

fn repository() -> RepositoryPath {
    RepositoryPath::from_str("acme/widgets").unwrap()
}

fn label() -> LabelIdentity {
    LabelIdentity::derive("area", "ffcc00", "backend", "Backend work")
}

fn creation() -> RemoteCall {
    RemoteCall::CreateLabel {
        owner: "acme".to_string(),
        repo: "widgets".to_string(),
        request: CreateLabelRequest {
            name: "area-backend".to_string(),
            color: "ffcc00".to_string(),
            description: "Backend work".to_string(),
        },
    }
}

fn update() -> RemoteCall {
    RemoteCall::UpdateLabel {
        owner: "acme".to_string(),
        repo: "widgets".to_string(),
        name: "area-backend".to_string(),
        request: UpdateLabelRequest {
            new_name: "area-backend".to_string(),
            color: "ffcc00".to_string(),
            description: "Backend work".to_string(),
        },
    }
}

fn failed(detail: &str) -> RemoteReply {
    RemoteReply::Failed(detail.to_string())
}

#[test]
fn calls_carry_the_repository_and_the_label() {
    assert_eq!(make_create_call(&repository(), &label()), creation());
    assert_eq!(make_update_call(&repository(), &label()), update());
}

#[test]
fn applier_begins_with_the_creation() {
    let (applier, action) = LabelApplier::start(&repository(), label());
    assert_eq!(action, Action::Call(creation()));
    assert_eq!(applier.pending(), Action::Call(creation()));
}

#[test]
fn successful_creation_ends_the_work() {
    let (applier, _) = LabelApplier::start(&repository(), label());
    let (applier, action) = applier.on_reply(RemoteReply::Succeeded);
    assert_eq!(action, Action::Finish(Ok(())));
    assert_eq!(applier.pending(), Action::Finish(Ok(())));
}

#[test]
fn failed_creation_falls_back_to_the_update() {
    let (applier, _) = LabelApplier::start(&repository(), label());
    let (_, action) = applier.on_reply(failed("already exists"));
    assert_eq!(action, Action::Call(update()));
}

#[test]
fn any_failure_of_the_creation_falls_back_to_the_update() {
    for detail in ["already exists", "connection reset", "403 Forbidden", ""] {
        let (applier, _) = LabelApplier::start(&repository(), label());
        let (_, action) = applier.on_reply(failed(detail));
        assert_eq!(action, Action::Call(update()));
    }
}

#[test]
fn successful_update_ends_the_work() {
    let (applier, _) = LabelApplier::start(&repository(), label());
    let (applier, _) = applier.on_reply(failed("already exists"));
    let (_, action) = applier.on_reply(RemoteReply::Succeeded);
    assert_eq!(action, Action::Finish(Ok(())));
}

#[test]
fn failed_update_ends_the_work_with_its_detail() {
    let (applier, _) = LabelApplier::start(&repository(), label());
    let (applier, _) = applier.on_reply(failed("already exists"));
    let (_, action) = applier.on_reply(failed("404 Not Found"));
    assert_eq!(
        action,
        Action::Finish(Err(ClientError::Other("404 Not Found".to_string())))
    );
}

#[test]
fn finished_applier_ignores_further_replies() {
    let (applier, _) = LabelApplier::start(&repository(), label());
    let (applier, _) = applier.on_reply(RemoteReply::Succeeded);
    let (applier, action) = applier.on_reply(failed("late"));
    assert_eq!(action, Action::Finish(Ok(())));
    let (_, action) = applier.on_reply(RemoteReply::Succeeded);
    assert_eq!(action, Action::Finish(Ok(())));
}

#[test]
fn failed_applier_keeps_its_error() {
    let (applier, _) = LabelApplier::start(&repository(), label());
    let (applier, _) = applier.on_reply(failed("first"));
    let (applier, _) = applier.on_reply(failed("second"));
    let (applier, action) = applier.on_reply(RemoteReply::Succeeded);
    let error = Action::Finish(Err(ClientError::Other("second".to_string())));
    assert_eq!(action, error);
    let (_, action) = applier.on_reply(failed("third"));
    assert_eq!(action, error);
}

#[test]
fn phases_follow_the_replies() {
    assert_eq!(Phase::Creating.after(RemoteReply::Succeeded), Phase::Succeeded);
    assert_eq!(Phase::Creating.after(failed("x")), Phase::Updating);
    assert_eq!(Phase::Updating.after(RemoteReply::Succeeded), Phase::Succeeded);
    assert_eq!(
        Phase::Updating.after(failed("x")),
        Phase::Failed(ClientError::Other("x".to_string()))
    );
    assert_eq!(Phase::Succeeded.after(failed("x")), Phase::Succeeded);
    assert_eq!(
        Phase::Failed(ClientError::Other("x".to_string())).after(RemoteReply::Succeeded),
        Phase::Failed(ClientError::Other("x".to_string()))
    );
}

#[test]
fn phase_says_what_is_due() {
    let repository = repository();
    let label = label();
    assert_eq!(Phase::Creating.action(&repository, &label), Action::Call(creation()));
    assert_eq!(Phase::Updating.action(&repository, &label), Action::Call(update()));
    assert_eq!(Phase::Succeeded.action(&repository, &label), Action::Finish(Ok(())));
    assert_eq!(
        Phase::Failed(ClientError::Other("boom".to_string())).action(&repository, &label),
        Action::Finish(Err(ClientError::Other("boom".to_string())))
    );
}

#[test]
fn client_error_has_its_message() {
    let error = ClientError::Other("HTTP Error. Code: 404".to_string());
    assert_eq!(
        error.message(),
        "Encountered GitHub client error: HTTP Error. Code: 404"
    );
    assert_eq!(error.clone(), error);
}
