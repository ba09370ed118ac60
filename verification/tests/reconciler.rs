use label_conductor::applier::Action;
use label_conductor::category::Category;
use label_conductor::config::Config;
use label_conductor::forge::{ClientError, RemoteCall, RemoteReply};
use label_conductor::label::LabelIdentity;
use label_conductor::reconciler::Reconciler;
use label_conductor::repository::RepositoryPath;

/// Plays the forge from a script: the replies are given out in order, and
/// the calls are written down.
fn drive(
    begun: (Reconciler, Action),
    replies: Vec<RemoteReply>,
) -> (Vec<String>, Option<Result<(), ClientError>>, Reconciler) {
    let (mut reconciler, mut action) = begun;
    let mut calls = Vec::new();
    let mut replies = replies.into_iter();
    loop {
        match action {
            Action::Finish(result) => return (calls, Some(result), reconciler),
            Action::Call(call) => {
                calls.push(describe(&call));
                match replies.next() {
                    None => return (calls, None, reconciler),
                    Some(reply) => {
                        let next = reconciler.on_reply(reply);
                        reconciler = next.0;
                        action = next.1;
                    }
                }
            }
        }
    }
}

fn describe(call: &RemoteCall) -> String {
    match call {
        RemoteCall::CreateLabel { owner, repo, request } => format!(
            "create {}/{} {} {} {}",
            owner, repo, request.name, request.color, request.description
        ),
        RemoteCall::UpdateLabel { owner, repo, name, request } => format!(
            "update {}/{} {}->{} {} {}",
            owner, repo, name, request.new_name, request.color, request.description
        ),
    }
}

fn ok() -> RemoteReply {
    RemoteReply::Succeeded
}

fn failed(detail: &str) -> RemoteReply {
    RemoteReply::Failed(detail.to_string())
}

fn repository() -> RepositoryPath {
    RepositoryPath::from_str("octo/repo").unwrap()
}

fn two_categories() -> Config {
    Config {
        categories: vec![
            Category::new("A", "aaaaaa").with_label("x", "ax").with_label("y", "ay"),
            Category::new("B", "bbbbbb").with_label("x", "bx").with_label("y", "by"),
        ],
    }
}

#[test]
fn labels_are_created_in_order() {
    let begun = Reconciler::for_config(&repository(), &two_categories());
    let (calls, result, reconciler) = drive(begun, vec![ok(), ok(), ok(), ok()]);
    assert_eq!(
        calls,
        vec![
            "create octo/repo A-x aaaaaa ax",
            "create octo/repo A-y aaaaaa ay",
            "create octo/repo B-x bbbbbb bx",
            "create octo/repo B-y bbbbbb by",
        ]
    );
    assert_eq!(result, Some(Ok(())));
    assert_eq!(reconciler.applied(), 4);
    assert_eq!(reconciler.current(), None);
}

#[test]
fn updates_stand_between_the_creations_they_follow() {
    let begun = Reconciler::for_config(&repository(), &two_categories());
    let replies = vec![ok(), failed("exists"), ok(), failed("exists"), ok(), ok()];
    let (calls, result, _) = drive(begun, replies);
    assert_eq!(
        calls,
        vec![
            "create octo/repo A-x aaaaaa ax",
            "create octo/repo A-y aaaaaa ay",
            "update octo/repo A-y->A-y aaaaaa ay",
            "create octo/repo B-x bbbbbb bx",
            "update octo/repo B-x->B-x bbbbbb bx",
            "create octo/repo B-y bbbbbb by",
        ]
    );
    assert_eq!(result, Some(Ok(())));
}

#[test]
fn failed_update_stops_the_work() {
    let begun = Reconciler::for_config(&repository(), &two_categories());
    let replies = vec![ok(), failed("exists"), failed("forbidden"), ok(), ok(), ok()];
    let (calls, result, reconciler) = drive(begun, replies);
    assert_eq!(
        calls,
        vec![
            "create octo/repo A-x aaaaaa ax",
            "create octo/repo A-y aaaaaa ay",
            "update octo/repo A-y->A-y aaaaaa ay",
        ]
    );
    assert_eq!(result, Some(Err(ClientError::Other("forbidden".to_string()))));
    assert_eq!(reconciler.applied(), 1);
    assert_eq!(
        reconciler.current(),
        Some(&LabelIdentity::derive("A", "aaaaaa", "y", "ay"))
    );
}

#[test]
fn failed_reconciler_stays_failed() {
    let category = Category::new("A", "aaaaaa").with_label("x", "ax").with_label("y", "ay");
    let (reconciler, _) = Reconciler::for_category(&repository(), &category);
    let (reconciler, _) = reconciler.on_reply(failed("exists"));
    let (reconciler, action) = reconciler.on_reply(failed("gone"));
    let error = Action::Finish(Err(ClientError::Other("gone".to_string())));
    assert_eq!(action, error);
    let (reconciler, action) = reconciler.on_reply(ok());
    assert_eq!(action, error);
    let (reconciler, action) = reconciler.on_reply(failed("later"));
    assert_eq!(action, error);
    assert_eq!(reconciler.pending(), error);
    assert_eq!(reconciler.applied(), 0);
}

#[test]
fn finished_reconciler_stays_finished() {
    let category = Category::new("A", "aaaaaa").with_label("x", "ax");
    let (reconciler, _) = Reconciler::for_category(&repository(), &category);
    let (reconciler, action) = reconciler.on_reply(ok());
    assert_eq!(action, Action::Finish(Ok(())));
    let (reconciler, action) = reconciler.on_reply(failed("late"));
    assert_eq!(action, Action::Finish(Ok(())));
    assert_eq!(reconciler.applied(), 1);
}

#[test]
fn pending_call_waits_for_its_reply() {
    let begun = Reconciler::for_config(&repository(), &two_categories());
    let (calls, result, reconciler) = drive(begun, vec![ok(), failed("exists")]);
    assert_eq!(
        calls,
        vec![
            "create octo/repo A-x aaaaaa ax",
            "create octo/repo A-y aaaaaa ay",
            "update octo/repo A-y->A-y aaaaaa ay",
        ]
    );
    assert_eq!(result, None);
    assert_eq!(reconciler.applied(), 1);
    assert_eq!(reconciler.current().map(|label| label.name()), Some("A-y"));
}

#[test]
fn category_without_entries_needs_no_call() {
    let category = Category::new("empty", "000000");
    let (reconciler, action) = Reconciler::for_category(&repository(), &category);
    assert_eq!(action, Action::Finish(Ok(())));
    assert_eq!(reconciler.applied(), 0);
    assert_eq!(reconciler.current(), None);
}

#[test]
fn configuration_without_categories_needs_no_call() {
    let config = Config { categories: Vec::new() };
    let (_, action) = Reconciler::for_config(&repository(), &config);
    assert_eq!(action, Action::Finish(Ok(())));
}

#[test]
fn category_is_reconciled_entry_by_entry() {
    let category = Category::new("kind", "0e8a16")
        .with_label("bug", "Something is broken")
        .with_label("feature", "Something is missing");
    let begun = Reconciler::for_category(&repository(), &category);
    let (calls, result, _) = drive(begun, vec![ok(), ok()]);
    assert_eq!(
        calls,
        vec![
            "create octo/repo kind-bug 0e8a16 Something is broken",
            "create octo/repo kind-feature 0e8a16 Something is missing",
        ]
    );
    assert_eq!(result, Some(Ok(())));
}

#[test]
fn labels_given_directly_are_applied_as_given() {
    let labels = vec![
        LabelIdentity::derive("b", "222222", "two", "second"),
        LabelIdentity::derive("a", "111111", "one", "first"),
    ];
    let begun = Reconciler::start(&repository(), labels);
    let (calls, result, _) = drive(begun, vec![ok(), ok()]);
    assert_eq!(
        calls,
        vec!["create octo/repo b-two 222222 second", "create octo/repo a-one 111111 first"]
    );
    assert_eq!(result, Some(Ok(())));
}
